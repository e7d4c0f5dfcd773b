use vstd::prelude::*;

verus! {

/// The character of a decimal digit.
pub open spec fn digit_char(d: nat) -> char {
    if d == 0 {
        '0'
    } else if d == 1 {
        '1'
    } else if d == 2 {
        '2'
    } else if d == 3 {
        '3'
    } else if d == 4 {
        '4'
    } else if d == 5 {
        '5'
    } else if d == 6 {
        '6'
    } else if d == 7 {
        '7'
    } else if d == 8 {
        '8'
    } else {
        '9'
    }
}

/// The decimal numeral of `n`, without leading zeros.
pub open spec fn decimal(n: nat) -> Seq<char>
    decreases n,
{
    if n < 10 {
        seq![digit_char(n)]
    } else {
        decimal(n / 10).push(digit_char(n % 10))
    }
}

/// The number that a sequence of decimal digits denotes, most significant
/// digit first.
pub open spec fn digits_value(s: Seq<u8>) -> nat
    decreases s.len(),
{
    if s.len() == 0 {
        0
    } else {
        digits_value(s.drop_last()) * 10 + s.last() as nat
    }
}

/// Every element is a decimal digit.
pub open spec fn all_digits(s: Seq<u8>) -> bool {
    forall|i: int| 0 <= i < s.len() ==> #[trigger] s[i] < 10
}

/// A numeral as `decimal` writes it: at least one digit, and no leading zero
/// but for zero itself.
pub open spec fn canonical(s: Seq<u8>) -> bool {
    &&& s.len() >= 1
    &&& all_digits(s)
    &&& s.len() > 1 ==> s[0] != 0
}

/// The characters of a sequence of digits.
pub open spec fn render(s: Seq<u8>) -> Seq<char> {
    Seq::new(s.len(), |i: int| digit_char(s[i] as nat))
}

/// The numeral that follows `s`.
pub open spec fn successor(s: Seq<u8>) -> Seq<u8>
    decreases s.len(),
{
    if s.len() == 0 {
        seq![1u8]
    } else if s.last() < 9 {
        s.drop_last().push((s.last() + 1) as u8)
    } else {
        successor(s.drop_last()).push(0u8)
    }
}

/// `k` times the digit `d`.
pub open spec fn repeat_digit(d: u8, k: nat) -> Seq<u8> {
    Seq::new(k, |i: int| d)
}

/// The name that a generator with the given prefix hands out as its `n`-th.
pub open spec fn numbered_name(prefix: Seq<char>, n: nat) -> Seq<char> {
    prefix + decimal(n)
}

/// A numeral is never empty.
pub proof fn lemma_decimal_len(n: nat)
    ensures
        decimal(n).len() >= 1,
        n >= 10 ==> decimal(n).len() >= 2,
    decreases n,
{
    if n >= 10 {
        lemma_decimal_len(n / 10);
    }
}

/// Different numbers have different numerals.
pub proof fn lemma_decimal_injective(n: nat, m: nat)
    requires
        decimal(n) == decimal(m),
    ensures
        n == m,
    decreases n,
{
    lemma_decimal_len(n);
    lemma_decimal_len(m);
    if n < 10 {
        assert(decimal(n)[0] == digit_char(n));
        if m < 10 {
            assert(decimal(m)[0] == digit_char(m));
        }
    } else {
        if m >= 10 {
            let a = decimal(n / 10);
            let b = decimal(m / 10);
            assert(a.push(digit_char(n % 10)).last() == digit_char(n % 10));
            assert(b.push(digit_char(m % 10)).last() == digit_char(m % 10));
            assert(a.push(digit_char(n % 10)).drop_last() =~= a);
            assert(b.push(digit_char(m % 10)).drop_last() =~= b);
            lemma_decimal_injective(n / 10, m / 10);
        }
    }
}

/// Names with one prefix differ where their numbers differ.
pub proof fn lemma_numbered_name_injective(prefix: Seq<char>, n: nat, m: nat)
    requires
        numbered_name(prefix, n) == numbered_name(prefix, m),
    ensures
        n == m,
{
    let a = numbered_name(prefix, n);
    let b = numbered_name(prefix, m);
    assert(a.subrange(prefix.len() as int, a.len() as int) =~= decimal(n));
    assert(b.subrange(prefix.len() as int, b.len() as int) =~= decimal(m));
    lemma_decimal_injective(n, m);
}

proof fn lemma_value_positive(s: Seq<u8>)
    requires
        s.len() >= 1,
        s[0] != 0,
    ensures
        digits_value(s) >= 1,
    decreases s.len(),
{
    if s.len() > 1 {
        lemma_value_positive(s.drop_last());
    }
}

/// A canonical sequence of digits is the numeral of its value.
pub proof fn lemma_render_is_decimal(s: Seq<u8>)
    requires
        canonical(s),
    ensures
        render(s) == decimal(digits_value(s)),
    decreases s.len(),
{
    let init = s.drop_last();
    if s.len() == 1 {
        assert(digits_value(init) == 0);
        assert(render(s) =~= seq![digit_char(s[0] as nat)]);
    } else {
        assert(init[0] == s[0]);
        lemma_value_positive(init);
        lemma_render_is_decimal(init);
        let v = digits_value(s);
        let w = digits_value(init);
        assert(v == w * 10 + s.last() as nat);
        assert(s.last() == s[s.len() - 1]);
        assert(v / 10 == w && v % 10 == s.last() as nat) by (nonlinear_arith)
            requires
                v == w * 10 + s.last() as nat,
                s.last() < 10,
        ;
        assert(render(s) =~= render(init).push(digit_char(s.last() as nat)));
    }
}

/// The successor of a numeral denotes the next number.
pub proof fn lemma_successor_value(s: Seq<u8>)
    requires
        all_digits(s),
    ensures
        digits_value(successor(s)) == digits_value(s) + 1,
        all_digits(successor(s)),
        successor(s).len() >= 1,
        (s.len() == 0 || s[0] != 0) ==> successor(s)[0] != 0,
    decreases s.len(),
{
    if s.len() == 0 {
        assert(seq![1u8].drop_last() =~= Seq::<u8>::empty());
        assert(digits_value(seq![1u8].drop_last()) == 0);
    } else {
        let init = s.drop_last();
        assert(s.last() == s[s.len() - 1]);
        if s.last() < 9 {
            let r = init.push((s.last() + 1) as u8);
            assert(r.drop_last() =~= init);
        } else {
            assert forall|i: int| 0 <= i < init.len() implies #[trigger] init[i] < 10 by {
                assert(init[i] == s[i]);
            }
            lemma_successor_value(init);
            let r = successor(init).push(0u8);
            assert(r.drop_last() =~= successor(init));
            assert(r[0] == successor(init)[0]);
        }
    }
}

/// Trailing nines turn to zeros, and the carry goes to what stands before
/// them.
pub proof fn lemma_successor_carry(p: Seq<u8>, k: nat)
    ensures
        successor(p + repeat_digit(9, k)) == successor(p) + repeat_digit(0, k),
    decreases k,
{
    let s = p + repeat_digit(9, k);
    if k == 0 {
        assert(s =~= p);
        assert(successor(p) + repeat_digit(0, k) =~= successor(p));
    } else {
        let shorter = p + repeat_digit(9, (k - 1) as nat);
        assert(s.drop_last() =~= shorter);
        assert(s.last() == 9);
        lemma_successor_carry(p, (k - 1) as nat);
        assert(successor(shorter).push(0u8) =~= successor(p) + repeat_digit(0, k));
    }
}

/// A counter without an upper limit: a decimal numeral that can always be
/// advanced.
#[derive(Debug)]
pub struct NameCounter {
    digits: Vec<u8>,
}

impl NameCounter {
    /// The numeral is canonical.
    pub closed spec fn wf(&self) -> bool {
        canonical(self.digits@)
    }

    /// The counter's number.
    pub closed spec fn value(&self) -> nat {
        digits_value(self.digits@)
    }

    /// A counter at zero.
    pub fn new() -> (res: NameCounter)
        ensures
            res.wf(),
            res.value() == 0,
    {
        let mut digits: Vec<u8> = Vec::new();
        digits.push(0u8);
        proof {
            assert(digits@.drop_last() =~= Seq::<u8>::empty());
            assert(digits_value(digits@.drop_last()) == 0);
        }
        NameCounter { digits }
    }

    /// Advances the counter by one.
    pub fn advance(&mut self)
        requires
            old(self).wf(),
        ensures
            final(self).wf(),
            final(self).value() == old(self).value() + 1,
    {
        let ghost before = self.digits@;
        let n: usize = self.digits.len();
        let mut i: usize = n;
        while i > 0 && self.digits[i - 1] == 9
            invariant
                i <= n,
                n == before.len(),
                self.digits@.len() == n,
                self.digits@ =~= before.take(i as int) + repeat_digit(0, (n - i) as nat),
                before =~= before.take(i as int) + repeat_digit(9, (n - i) as nat),
            decreases i,
        {
            self.digits.set(i - 1, 0u8);
            i = i - 1;
        }
        let ghost prefix = before.take(i as int);
        proof {
            lemma_successor_carry(prefix, (n - i) as nat);
            lemma_successor_value(before);
        }
        if i == 0 {
            self.digits.insert(0, 1u8);
            proof {
                assert(prefix =~= Seq::<u8>::empty());
                assert(self.digits@ =~= successor(prefix) + repeat_digit(0, (n - i) as nat));
            }
        } else {
            let d: u8 = self.digits[i - 1];
            self.digits.set(i - 1, d + 1);
            proof {
                assert(prefix.last() == d);
                assert(prefix.drop_last() =~= before.take(i - 1));
                assert(self.digits@ =~= successor(prefix) + repeat_digit(0, (n - i) as nat));
            }
        }
        proof {
            assert(self.digits@ == successor(before));
            if before.len() == 1 && before[0] == 0 {
                assert(before.drop_last() =~= Seq::<u8>::empty());
            }
        }
    }

    /// The counter's numeral behind `prefix`.
    pub fn name(&self, prefix: &str) -> (res: String)
        requires
            self.wf(),
        ensures
            res@ == numbered_name(prefix@, self.value()),
    {
        let mut out = String::from_str(prefix);
        let n: usize = self.digits.len();
        let mut i: usize = 0;
        while i < n
            invariant
                i <= n,
                n == self.digits@.len(),
                all_digits(self.digits@),
                out@ =~= prefix@ + render(self.digits@.take(i as int)),
            decreases n - i,
        {
            let d: u8 = self.digits[i];
            let piece = digit_str(d);
            out.append(piece);
            proof {
                assert(render(self.digits@.take(i + 1)) =~= render(self.digits@.take(i as int))
                    + seq![digit_char(d as nat)]);
            }
            i = i + 1;
        }
        proof {
            assert(self.digits@.take(n as int) =~= self.digits@);
            lemma_render_is_decimal(self.digits@);
        }
        out
    }
}

impl Clone for NameCounter {
    fn clone(&self) -> (res: NameCounter)
        ensures
            res.wf() == self.wf(),
            res.value() == self.value(),
    {
        let mut digits: Vec<u8> = Vec::new();
        let mut i: usize = 0;
        while i < self.digits.len()
            invariant
                i <= self.digits.len(),
                digits@ =~= self.digits@.take(i as int),
            decreases self.digits.len() - i,
        {
            digits.push(self.digits[i]);
            i = i + 1;
        }
        assert(digits@ =~= self.digits@);
        NameCounter { digits }
    }
}

/// The one-character string of a decimal digit.
fn digit_str(d: u8) -> (res: &'static str)
    requires
        d < 10,
    ensures
        res@ == seq![digit_char(d as nat)],
{
    proof {
        reveal_strlit("0");
        reveal_strlit("1");
        reveal_strlit("2");
        reveal_strlit("3");
        reveal_strlit("4");
        reveal_strlit("5");
        reveal_strlit("6");
        reveal_strlit("7");
        reveal_strlit("8");
        reveal_strlit("9");
    }
    let res = if d == 0 {
        "0"
    } else if d == 1 {
        "1"
    } else if d == 2 {
        "2"
    } else if d == 3 {
        "3"
    } else if d == 4 {
        "4"
    } else if d == 5 {
        "5"
    } else if d == 6 {
        "6"
    } else if d == 7 {
        "7"
    } else if d == 8 {
        "8"
    } else {
        "9"
    };
    assert(res@ =~= seq![digit_char(d as nat)]);
    res
}

/// The numeral of an integer: a minus sign before that of a negative one.
pub open spec fn signed_decimal(i: int) -> Seq<char> {
    if i < 0 {
        seq!['-'] + decimal((-i) as nat)
    } else {
        decimal(i as nat)
    }
}

/// The decimal numeral of a number.
pub fn decimal_string(n: u64) -> (res: String)
    ensures
        res@ == decimal(n as nat),
    decreases n,
{
    if n < 10 {
        String::from_str(digit_str(n as u8))
    } else {
        let mut out = decimal_string(n / 10);
        out.append(digit_str((n % 10) as u8));
        assert(out@ =~= decimal((n / 10) as nat).push(digit_char((n % 10) as nat)));
        out
    }
}

/// The decimal numeral of an integer.
pub fn signed_decimal_string(i: i64) -> (res: String)
    ensures
        res@ == signed_decimal(i as int),
{
    if i < 0 {
        let magnitude: u64 = ((-(i + 1)) as u64) + 1;
        let mut out = String::from_str("-");
        let digits = decimal_string(magnitude);
        out.append(digits.as_str());
        proof {
            reveal_strlit("-");
            assert("-"@ =~= seq!['-']);
        }
        out
    } else {
        decimal_string(i as u64)
    }
}

} // verus!
