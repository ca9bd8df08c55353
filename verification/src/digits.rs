//! Canonical decimal notation for unsigned integers: the spec-level grammar
//! and verified printing and parsing, shared by the JSON codecs.
use vstd::prelude::*;
use vstd::string::StringExecFns;
use vstd::arithmetic::div_mod::lemma_fundamental_div_mod_converse;

verus! {

/// The decimal digit character for `d` (meaningful for `0 <= d <= 9`).
pub open spec fn digit_char(d: int) -> char {
    if d == 0 {
        '0'
    } else if d == 1 {
        '1'
    } else if d == 2 {
        '2'
    } else if d == 3 {
        '3'
    } else if d == 4 {
        '4'
    } else if d == 5 {
        '5'
    } else if d == 6 {
        '6'
    } else if d == 7 {
        '7'
    } else if d == 8 {
        '8'
    } else {
        '9'
    }
}

/// The value of a decimal digit character; 10 for anything that is no digit.
pub open spec fn char_digit(c: char) -> int {
    if c == '0' {
        0
    } else if c == '1' {
        1
    } else if c == '2' {
        2
    } else if c == '3' {
        3
    } else if c == '4' {
        4
    } else if c == '5' {
        5
    } else if c == '6' {
        6
    } else if c == '7' {
        7
    } else if c == '8' {
        8
    } else if c == '9' {
        9
    } else {
        10
    }
}

pub open spec fn is_digit_char(c: char) -> bool {
    char_digit(c) < 10
}

/// The canonical decimal notation of `n`: no sign, no leading zeros.
pub open spec fn dec_digits(n: nat) -> Seq<char>
    decreases n,
{
    if n < 10 {
        seq![digit_char(n as int)]
    } else {
        dec_digits(n / 10).push(digit_char((n % 10) as int))
    }
}

/// The number denoted by a digit string, most significant digit first.
pub open spec fn digits_val(s: Seq<char>) -> nat
    decreases s.len(),
{
    if s.len() == 0 {
        0
    } else {
        (digits_val(s.drop_last()) * 10 + char_digit(s.last())) as nat
    }
}

/// A nonempty all-digit string without a superfluous leading zero.
pub open spec fn is_canon_digits(s: Seq<char>) -> bool {
    &&& s.len() >= 1
    &&& forall|i: int| 0 <= i < s.len() ==> is_digit_char(#[trigger] s[i])
    &&& (s.len() > 1 ==> s[0] != '0')
}

pub proof fn lemma_digits_val_push(s: Seq<char>, c: char)
    ensures
        digits_val(s.push(c)) == digits_val(s) * 10 + char_digit(c),
{
    assert(s.push(c).drop_last() =~= s);
    assert(s.push(c).last() == c);
}

/// Printing `n` yields a canonical digit string that denotes `n`.
pub proof fn lemma_dec_digits_canon(n: nat)
    ensures
        is_canon_digits(dec_digits(n)),
        digits_val(dec_digits(n)) == n,
    decreases n,
{
    if n < 10 {
        let s = dec_digits(n);
        assert(s.drop_last() =~= Seq::<char>::empty());
        assert(digits_val(Seq::<char>::empty()) == 0);
        assert(s.last() == digit_char(n as int));
        assert(digits_val(s) == char_digit(digit_char(n as int)));
        assert(char_digit(digit_char(n as int)) == n);
    } else {
        lemma_dec_digits_canon(n / 10);
        let hd = dec_digits(n / 10);
        let c = digit_char((n % 10) as int);
        lemma_digits_val_push(hd, c);
        assert(digits_val(hd.push(c)) == (n / 10) * 10 + (n % 10));
        assert((n / 10) * 10 + (n % 10) == n) by {
            vstd::arithmetic::div_mod::lemma_fundamental_div_mod(n as int, 10);
        }
        if hd.len() == 1 {
            assert(hd.drop_last() =~= Seq::<char>::empty());
            assert(digits_val(Seq::<char>::empty()) == 0);
            assert(hd.last() == hd[0]);
            assert(char_digit(hd[0]) == n / 10);
            assert(n / 10 >= 1);
            assert(hd[0] != '0');
        }
        assert(dec_digits(n)[0] == hd[0]);
        assert(forall|i: int| 0 <= i < hd.len() ==> dec_digits(n)[i] == hd[i]);
    }
}

/// A canonical digit string with a nonzero leading digit denotes at least 1.
pub proof fn lemma_digits_val_pos(s: Seq<char>)
    requires
        s.len() >= 1,
        forall|i: int| 0 <= i < s.len() ==> is_digit_char(#[trigger] s[i]),
        s[0] != '0',
    ensures
        digits_val(s) >= 1,
    decreases s.len(),
{
    if s.len() == 1 {
        assert(char_digit(s[0]) >= 1);
    } else {
        let hd = s.drop_last();
        assert(hd[0] == s[0]);
        assert(forall|i: int| 0 <= i < hd.len() ==> is_digit_char(#[trigger] hd[i]));
        lemma_digits_val_pos(hd);
    }
}

/// Parsing then printing gives the string back: canonical digit strings are
/// in bijection with the numbers they denote.
pub proof fn lemma_canon_digits_roundtrip(s: Seq<char>)
    requires
        is_canon_digits(s),
    ensures
        dec_digits(digits_val(s)) == s,
    decreases s.len(),
{
    if s.len() == 1 {
        assert(s.drop_last() =~= Seq::<char>::empty());
        assert(digits_val(Seq::<char>::empty()) == 0);
        assert(s.last() == s[0]);
        assert(digits_val(s) == char_digit(s[0]));
        assert(dec_digits(digits_val(s)) =~= s);
    } else {
        let hd = s.drop_last();
        let d = char_digit(s.last());
        assert(hd[0] == s[0]);
        assert(forall|i: int| 0 <= i < hd.len() ==> is_digit_char(#[trigger] hd[i]));
        lemma_digits_val_pos(hd);
        let v = digits_val(s);
        let vh = digits_val(hd);
        assert(v == vh * 10 + d);
        assert(v >= 10);
        lemma_fundamental_div_mod_converse(v as int, 10, vh as int, d);
        lemma_canon_digits_roundtrip(hd);
        assert(dec_digits(v) == dec_digits(vh).push(digit_char(d)));
        assert(digit_char(char_digit(s.last())) == s.last());
        assert(dec_digits(v) =~= s);
    }
}

/// Extending a digit string to the right never decreases its value.
pub proof fn lemma_digits_val_prefix_le(s: Seq<char>, i: int, j: int)
    requires
        0 <= i <= j <= s.len(),
    ensures
        digits_val(s.subrange(0, i)) <= digits_val(s.subrange(0, j)),
    decreases j - i,
{
    if i < j {
        lemma_digits_val_prefix_le(s, i, j - 1);
        let p = s.subrange(0, j - 1);
        assert(s.subrange(0, j) =~= p.push(s[j - 1]));
        lemma_digits_val_push(p, s[j - 1]);
        assert(char_digit(s[j - 1]) >= 0);
        assert(digits_val(p) * 10 >= digits_val(p));
    }
}

/// The single-character string for the decimal digit `d`.
pub fn digit_to_str(d: u64) -> (r: &'static str)
    requires
        d < 10,
    ensures
        r@ == seq![digit_char(d as int)],
{
    let r: &'static str = match d {
        0 => "0",
        1 => "1",
        2 => "2",
        3 => "3",
        4 => "4",
        5 => "5",
        6 => "6",
        7 => "7",
        8 => "8",
        _ => "9",
    };
    proof {
        reveal_strlit("0");
        reveal_strlit("1");
        reveal_strlit("2");
        reveal_strlit("3");
        reveal_strlit("4");
        reveal_strlit("5");
        reveal_strlit("6");
        reveal_strlit("7");
        reveal_strlit("8");
        reveal_strlit("9");
        assert(r@ =~= seq![digit_char(d as int)]);
    }
    r
}

/// The value of a digit character, 10 for anything else.
pub fn char_to_digit(c: char) -> (r: u64)
    ensures
        r as int == char_digit(c),
{
    match c {
        '0' => 0,
        '1' => 1,
        '2' => 2,
        '3' => 3,
        '4' => 4,
        '5' => 5,
        '6' => 6,
        '7' => 7,
        '8' => 8,
        '9' => 9,
        _ => 10,
    }
}

/// Appends the canonical decimal notation of `n` to `out`.
pub fn append_u64(out: &mut String, n: u64)
    ensures
        final(out)@ == old(out)@ + dec_digits(n as nat),
    decreases n,
{
    if n >= 10 {
        append_u64(out, n / 10);
        let s = digit_to_str(n % 10);
        out.append(s);
        proof {
            assert(out@ =~= old(out)@ + dec_digits(n as nat));
        }
    } else {
        let s = digit_to_str(n);
        out.append(s);
        proof {
            assert(out@ =~= old(out)@ + dec_digits(n as nat));
        }
    }
}

/// Parses `s[from..to]` as a canonical decimal `u64`.
///
/// Returns `None` exactly when that range is not a canonical digit string
/// or denotes a number above `u64::MAX`.
pub fn parse_u64_digits(s: &str, from: usize, to: usize) -> (r: Option<u64>)
    requires
        from <= to <= s@.len(),
    ensures
        ({
            let sub = s@.subrange(from as int, to as int);
            match r {
                Some(v) => is_canon_digits(sub) && v as nat == digits_val(sub),
                None => !(is_canon_digits(sub) && digits_val(sub) <= u64::MAX),
            }
        }),
{
    let ghost sub = s@.subrange(from as int, to as int);
    if from == to {
        return None;
    }
    if to - from > 1 && s.get_char(from) == '0' {
        assert(sub[0] == '0');
        return None;
    }
    let mut val: u64 = 0;
    let mut i: usize = from;
    while i < to
        invariant
            from <= i <= to <= s@.len(),
            sub == s@.subrange(from as int, to as int),
            from < to,
            forall|k: int| from <= k < i ==> is_digit_char(#[trigger] s@[k]),
            val as nat == digits_val(s@.subrange(from as int, i as int)),
        decreases to - i,
    {
        let c = s.get_char(i);
        let d = char_to_digit(c);
        if d >= 10 {
            assert(sub[i - from] == s@[i as int]);
            assert(!is_digit_char(sub[i - from]));
            return None;
        }
        let ghost pre = s@.subrange(from as int, i as int);
        let ghost ext = s@.subrange(from as int, i as int + 1);
        proof {
            assert(ext =~= pre.push(s@[i as int]));
            lemma_digits_val_push(pre, s@[i as int]);
        }
        let next: u64 = match val.checked_mul(10) {
            Some(m) => match m.checked_add(d) {
                Some(a) => a,
                None => {
                    proof {
                        assert(digits_val(ext) > u64::MAX);
                        assert(ext =~= sub.subrange(0, i - from + 1));
                        lemma_digits_val_prefix_le(sub, i - from + 1, sub.len() as int);
                        assert(sub.subrange(0, sub.len() as int) =~= sub);
                    }
                    return None;
                },
            },
            None => {
                proof {
                    assert(digits_val(ext) > u64::MAX);
                    assert(ext =~= sub.subrange(0, i - from + 1));
                    lemma_digits_val_prefix_le(sub, i - from + 1, sub.len() as int);
                    assert(sub.subrange(0, sub.len() as int) =~= sub);
                }
                return None;
            },
        };
        val = next;
        i = i + 1;
    }
    proof {
        assert(s@.subrange(from as int, to as int) =~= sub);
        assert(forall|k: int| 0 <= k < sub.len() ==> sub[k] == s@[from + k]);
        if to - from > 1 {
            assert(sub[0] == s@[from as int]);
        }
    }
    Some(val)
}

} // verus!
