//! Decimal rendering of integers, used to build workspace names and the
//! exit-status report. The sequences produced are pinned exactly, and the
//! numeric value of a rendered (possibly zero-padded) sequence is recovered
//! by `seq_val`, which is what makes workspace names provably injective.
use vstd::prelude::*;

verus! {

/// The digit character for `d`, for `0 <= d <= 9` (and `'0'` elsewhere).
pub open spec fn digit_char(d: int) -> char {
    if d == 1 {
        '1'
    } else if d == 2 {
        '2'
    } else if d == 3 {
        '3'
    } else if d == 4 {
        '4'
    } else if d == 5 {
        '5'
    } else if d == 6 {
        '6'
    } else if d == 7 {
        '7'
    } else if d == 8 {
        '8'
    } else if d == 9 {
        '9'
    } else {
        '0'
    }
}

/// The numeric value of a digit character (and `0` for any other character).
pub open spec fn char_val(c: char) -> nat {
    if c == '1' {
        1
    } else if c == '2' {
        2
    } else if c == '3' {
        3
    } else if c == '4' {
        4
    } else if c == '5' {
        5
    } else if c == '6' {
        6
    } else if c == '7' {
        7
    } else if c == '8' {
        8
    } else if c == '9' {
        9
    } else {
        0
    }
}

/// The decimal digits of `n`, most significant first, with no leading zero
/// (a single `'0'` for zero itself).
pub open spec fn dec_seq(n: nat) -> Seq<char>
    decreases n,
{
    if n < 10 {
        seq![digit_char(n as int)]
    } else {
        dec_seq(n / 10).push(digit_char((n % 10) as int))
    }
}

/// A run of `k` zero characters.
pub open spec fn zeros(k: nat) -> Seq<char> {
    Seq::new(k, |i: int| '0')
}

/// The digits of `n` left-padded with zeros to width `w`; wider than `w`
/// only when the digits of `n` alone already are.
pub open spec fn pad_seq(n: nat, w: nat) -> Seq<char> {
    if dec_seq(n).len() >= w {
        dec_seq(n)
    } else {
        zeros((w - dec_seq(n).len()) as nat) + dec_seq(n)
    }
}

/// The numeric value of a sequence of digit characters.
pub open spec fn seq_val(s: Seq<char>) -> nat
    decreases s.len(),
{
    if s.len() == 0 {
        0
    } else {
        seq_val(s.drop_last()) * 10 + char_val(s.last())
    }
}

/// `10^w`.
pub open spec fn pow10(w: nat) -> nat
    decreases w,
{
    if w == 0 {
        1
    } else {
        10 * pow10((w - 1) as nat)
    }
}

/// Rendering then re-reading the digits of `n` gives `n` back.
proof fn lemma_seq_val_dec(n: nat)
    ensures
        seq_val(dec_seq(n)) == n,
    decreases n,
{
    if n < 10 {
        assert(dec_seq(n).drop_last() =~= Seq::<char>::empty());
        assert(seq_val(Seq::<char>::empty()) == 0);
        assert(char_val(digit_char(n as int)) == n);
    } else {
        lemma_seq_val_dec(n / 10);
        assert(dec_seq(n).drop_last() =~= dec_seq(n / 10));
        assert(dec_seq(n).last() == digit_char((n % 10) as int));
        assert(char_val(digit_char((n % 10) as int)) == n % 10);
        vstd::arithmetic::div_mod::lemma_fundamental_div_mod(n as int, 10);
    }
}

/// Leading zeros do not change the value a digit sequence denotes.
proof fn lemma_seq_val_zeros(k: nat, s: Seq<char>)
    ensures
        seq_val(zeros(k) + s) == seq_val(s),
    decreases s.len(),
{
    if s.len() == 0 {
        assert(zeros(k) + s =~= zeros(k));
        lemma_seq_val_all_zeros(k);
    } else {
        lemma_seq_val_zeros(k, s.drop_last());
        assert((zeros(k) + s).drop_last() =~= zeros(k) + s.drop_last());
        assert((zeros(k) + s).last() == s.last());
    }
}

/// A run of zeros denotes zero.
proof fn lemma_seq_val_all_zeros(k: nat)
    ensures
        seq_val(zeros(k)) == 0,
    decreases k,
{
    if k > 0 {
        lemma_seq_val_all_zeros((k - 1) as nat);
        assert(zeros(k).drop_last() =~= zeros((k - 1) as nat));
        assert(zeros(k).last() == '0');
    }
}

/// Zero-padding preserves the value the digits denote.
pub proof fn lemma_seq_val_pad(n: nat, w: nat)
    ensures
        seq_val(pad_seq(n, w)) == n,
{
    lemma_seq_val_dec(n);
    if dec_seq(n).len() < w {
        lemma_seq_val_zeros((w - dec_seq(n).len()) as nat, dec_seq(n));
    }
}

/// `n < 10^w` renders in at most `w` digits (for `w >= 1`).
proof fn lemma_dec_len_bound(n: nat, w: nat)
    requires
        1 <= w,
        n < pow10(w),
    ensures
        dec_seq(n).len() <= w,
    decreases w,
{
    if n < 10 {
    } else {
        assert(pow10(w) == 10 * pow10((w - 1) as nat));
        assert(n / 10 < pow10((w - 1) as nat)) by (nonlinear_arith)
            requires
                n < 10 * pow10((w - 1) as nat),
                10 <= n,
        ;
        assert(w >= 2) by {
            if w == 1 {
                assert(pow10(0nat) == 1);
                assert(pow10(1nat) == 10);
            }
        }
        lemma_dec_len_bound(n / 10, (w - 1) as nat);
    }
}

/// Rendered digits are never a dash: the field separators of a joined
/// rendering are unambiguous.
proof fn lemma_dec_no_dash(n: nat)
    ensures
        forall|i: int| 0 <= i < dec_seq(n).len() ==> #[trigger] dec_seq(n)[i] != '-',
    decreases n,
{
    if n < 10 {
        assert(dec_seq(n)[0] == digit_char(n as int));
        assert(digit_char(n as int) != '-');
    } else {
        lemma_dec_no_dash(n / 10);
        assert forall|i: int| 0 <= i < dec_seq(n).len() implies #[trigger] dec_seq(n)[i]
            != '-' by {
            if i < dec_seq(n / 10).len() {
                assert(dec_seq(n)[i] == dec_seq(n / 10)[i]);
            } else {
                assert(dec_seq(n)[i] == digit_char((n % 10) as int));
            }
        }
    }
}

/// A zero-padded rendering holds no dash either.
pub proof fn lemma_pad_no_dash(n: nat, w: nat)
    ensures
        forall|i: int| 0 <= i < pad_seq(n, w).len() ==> #[trigger] pad_seq(n, w)[i] != '-',
        pad_seq(n, w).len() >= 1,
{
    lemma_dec_no_dash(n);
    if dec_seq(n).len() < w {
        assert forall|i: int| 0 <= i < pad_seq(n, w).len() implies #[trigger] pad_seq(n, w)[i]
            != '-' by {
            let z = (w - dec_seq(n).len()) as nat;
            if i < z {
                assert(pad_seq(n, w)[i] == '0');
            } else {
                assert(pad_seq(n, w)[i] == dec_seq(n)[i - z]);
            }
        }
    }
}

/// `n < 10^w` pads to exactly width `w` (for `w >= 1`).
pub proof fn lemma_pad_len(n: nat, w: nat)
    requires
        1 <= w,
        n < pow10(w),
    ensures
        pad_seq(n, w).len() == w,
{
    lemma_dec_len_bound(n, w);
}

/// The digit string literal for `d`.
fn digit_str(d: u32) -> (s: &'static str)
    requires
        d < 10,
    ensures
        s@ == seq![digit_char(d as int)],
{
    proof {
        reveal_strlit("0");
        reveal_strlit("1");
        reveal_strlit("2");
        reveal_strlit("3");
        reveal_strlit("4");
        reveal_strlit("5");
        reveal_strlit("6");
        reveal_strlit("7");
        reveal_strlit("8");
        reveal_strlit("9");
    }
    let s: &'static str = if d == 0 {
        "0"
    } else if d == 1 {
        "1"
    } else if d == 2 {
        "2"
    } else if d == 3 {
        "3"
    } else if d == 4 {
        "4"
    } else if d == 5 {
        "5"
    } else if d == 6 {
        "6"
    } else if d == 7 {
        "7"
    } else if d == 8 {
        "8"
    } else {
        "9"
    };
    proof {
        assert(s@ =~= seq![digit_char(d as int)]);
    }
    s
}

/// Render `n` in decimal, most significant digit first.
pub fn u32_to_dec(n: u32) -> (s: String)
    ensures
        s@ == dec_seq(n as nat),
    decreases n,
{
    if n < 10 {
        String::from_str(digit_str(n))
    } else {
        let mut s = u32_to_dec(n / 10);
        s.append(digit_str(n % 10));
        proof {
            assert(s@ =~= dec_seq(n as nat));
        }
        s
    }
}

/// Render `n` in decimal, left-padded with zeros to width `w`.
pub fn zero_pad(n: u32, w: usize) -> (s: String)
    ensures
        s@ == pad_seq(n as nat, w as nat),
{
    let d = u32_to_dec(n);
    let len = d.as_str().unicode_len();
    let mut s = String::new();
    let mut i: usize = len;
    while i < w
        invariant
            len <= i,
            len == dec_seq(n as nat).len(),
            i <= w || i == len,
            s@ =~= zeros((i - len) as nat),
        decreases w - i,
    {
        s.append("0");
        proof {
            reveal_strlit("0");
            assert(s@ =~= zeros((i + 1 - len) as nat));
        }
        i = i + 1;
    }
    s.append(d.as_str());
    proof {
        assert(s@ =~= pad_seq(n as nat, w as nat));
    }
    s
}

} // verus!
