use vstd::prelude::*;
use vstd::string::*;
use crate::entry::name_lt;

verus! {

/// `k` is where the first line of `s` ends: before the first newline, or at
/// the end of `s` where it has none.
pub open spec fn ends_line_at(s: Seq<char>, k: int) -> bool {
    &&& 0 <= k <= s.len()
    &&& forall|j: int| 0 <= j < k ==> s[j] != '\n'
    &&& (k == s.len() || s[k] == '\n')
}

/// The text of `s` up to its first newline; a carriage return just before
/// that newline belongs to the line ending.
pub open spec fn first_line_of(s: Seq<char>) -> Seq<char> {
    let k = choose|k: int| ends_line_at(s, k);
    if k < s.len() && k > 0 && s[k - 1] == '\r' {
        s.take(k - 1)
    } else {
        s.take(k)
    }
}

pub open spec fn is_digit(c: char) -> bool {
    ('0' as u32) <= (c as u32) && (c as u32) <= ('9' as u32)
}

/// The value of a run of decimal digits.
pub open spec fn digits_value(s: Seq<char>) -> int
    decreases s.len(),
{
    if s.len() == 0 {
        0
    } else {
        10 * digits_value(s.drop_last()) + ((s.last() as u32) - ('0' as u32))
    }
}

/// One or more decimal digits and nothing else.
pub open spec fn is_numeral(s: Seq<char>) -> bool {
    s.len() > 0 && forall|i: int| 0 <= i < s.len() ==> is_digit(#[trigger] s[i])
}

/// The value of a decimal integer literal with an optional sign.
pub open spec fn literal_value(s: Seq<char>) -> Option<int> {
    if s.len() > 0 && (s[0] == '-' || s[0] == '+') {
        if is_numeral(s.skip(1)) {
            if s[0] == '-' {
                Some(-digits_value(s.skip(1)))
            } else {
                Some(digits_value(s.skip(1)))
            }
        } else {
            None
        }
    } else if is_numeral(s) {
        Some(digits_value(s))
    } else {
        None
    }
}

/// The 32-bit signed integer that `s` spells, if it spells one.
pub open spec fn int_of(s: Seq<char>) -> Option<i32> {
    match literal_value(s) {
        Some(v) => if i32::MIN <= v <= i32::MAX {
            Some(v as i32)
        } else {
            None
        },
        None => None,
    }
}

pub proof fn lemma_line_end_unique(s: Seq<char>, k1: int, k2: int)
    requires
        ends_line_at(s, k1),
        ends_line_at(s, k2),
    ensures
        k1 == k2,
{
    if k1 < k2 {
        assert(s[k1] != '\n');
    } else if k2 < k1 {
        assert(s[k2] != '\n');
    }
}

/// The first line of `content`.
pub fn first_line(content: &str) -> (r: String)
    ensures
        r@ == first_line_of(content@),
{
    let n = content.unicode_len();
    let mut k: usize = 0;
    while k < n && content.get_char(k) != '\n'
        invariant
            n == content@.len(),
            k <= n,
            forall|j: int| 0 <= j < k ==> content@[j] != '\n',
        decreases n - k,
    {
        k = k + 1;
    }
    assert(ends_line_at(content@, k as int));
    proof {
        let c = choose|c: int| ends_line_at(content@, c);
        lemma_line_end_unique(content@, c, k as int);
    }
    let end: usize = if k < n && k > 0 && content.get_char(k - 1) == '\r' {
        k - 1
    } else {
        k
    };
    content.substring_char(0, end).to_string()
}

/// The integer that `s` spells in decimal, with an optional sign, if it fits
/// in 32 bits.
pub fn parse_int(s: &str) -> (r: Option<i32>)
    ensures
        r == int_of(s@),
{
    let n = s.unicode_len();
    if n == 0 {
        return None;
    }
    let c0 = s.get_char(0);
    let start: usize = if c0 == '-' || c0 == '+' {
        1
    } else {
        0
    };
    if start == n {
        assert(s@.skip(1).len() == 0);
        return None;
    }
    let mut acc: i64 = 0;
    let mut big = false;
    let mut i: usize = start;
    assert(s@.subrange(start as int, start as int) =~= Seq::<char>::empty());
    while i < n
        invariant
            n == s@.len(),
            start <= i <= n,
            start == 0 || start == 1,
            start == 1 <==> (s@[0] == '-' || s@[0] == '+'),
            c0 == s@[0],
            forall|j: int| start <= j < i ==> is_digit(#[trigger] s@[j]),
            !big ==> acc == digits_value(s@.subrange(start as int, i as int)) && 0 <= acc
                <= 2147483648,
            big ==> digits_value(s@.subrange(start as int, i as int)) > 2147483648,
        decreases n - i,
    {
        let c = s.get_char(i);
        if !((c as u32) >= ('0' as u32) && (c as u32) <= ('9' as u32)) {
            proof {
                if start == 1 {
                    assert(s@.skip(1)[i - 1] == c);
                    assert(!is_numeral(s@.skip(1)));
                } else {
                    assert(!is_numeral(s@));
                }
            }
            return None;
        }
        let d = ((c as u32) - ('0' as u32)) as i64;
        assert(s@.subrange(start as int, i + 1).drop_last() =~= s@.subrange(start as int, i as int));
        if !big {
            acc = acc * 10 + d;
            if acc > 2147483648 {
                big = true;
            }
        }
        i = i + 1;
    }
    proof {
        assert(s@.subrange(start as int, n as int) =~= s@.skip(start as int));
        if start == 1 {
            assert(forall|j: int| 0 <= j < s@.skip(1).len() ==> s@.skip(1)[j] == s@[j + 1]);
            assert(is_numeral(s@.skip(1)));
        } else {
            assert(s@.skip(0) =~= s@);
            assert(is_numeral(s@));
        }
    }
    if big {
        None
    } else if c0 == '-' {
        Some((-acc) as i32)
    } else if acc <= 2147483647 {
        Some(acc as i32)
    } else {
        None
    }
}

/// Whether two strings hold the same characters.
pub fn same_text(a: &str, b: &str) -> (r: bool)
    ensures
        r == (a@ == b@),
{
    let n = a.unicode_len();
    let m = b.unicode_len();
    if n != m {
        return false;
    }
    let mut i: usize = 0;
    while i < n
        invariant
            n == a@.len(),
            m == b@.len(),
            n == m,
            i <= n,
            forall|j: int| 0 <= j < i ==> a@[j] == b@[j],
        decreases n - i,
    {
        if a.get_char(i) != b.get_char(i) {
            return false;
        }
        i = i + 1;
    }
    assert(a@ =~= b@);
    true
}

/// Whether `a` comes before `b` in lexicographic order.
pub fn text_lt(a: &str, b: &str) -> (r: bool)
    ensures
        r == name_lt(a@, b@),
{
    let n = a.unicode_len();
    let m = b.unicode_len();
    let mut i: usize = 0;
    assert(a@.skip(0) =~= a@);
    assert(b@.skip(0) =~= b@);
    while i < n && i < m && a.get_char(i) == b.get_char(i)
        invariant
            n == a@.len(),
            m == b@.len(),
            i <= n,
            i <= m,
            name_lt(a@, b@) == name_lt(a@.skip(i as int), b@.skip(i as int)),
        decreases n - i,
    {
        assert(a@.skip(i as int).drop_first() =~= a@.skip(i + 1));
        assert(b@.skip(i as int).drop_first() =~= b@.skip(i + 1));
        i = i + 1;
    }
    if i == n {
        i < m
    } else if i == m {
        false
    } else {
        let x = a.get_char(i);
        let y = b.get_char(i);
        (x as u32) < (y as u32)
    }
}

/// The character of the decimal digit `d`.
pub open spec fn digit_char(d: int) -> char {
    if d == 0 { '0' }
    else if d == 1 { '1' }
    else if d == 2 { '2' }
    else if d == 3 { '3' }
    else if d == 4 { '4' }
    else if d == 5 { '5' }
    else if d == 6 { '6' }
    else if d == 7 { '7' }
    else if d == 8 { '8' }
    else { '9' }
}

/// The decimal digits of `n`, most significant first, without leading zeros.
pub open spec fn decimal(n: nat) -> Seq<char>
    decreases n,
{
    if n < 10 {
        seq![digit_char(n as int)]
    } else {
        decimal(n / 10).push(digit_char((n % 10) as int))
    }
}

/// The decimal text of `p`, with a minus sign where it is negative.
pub open spec fn int_text(p: int) -> Seq<char> {
    if p < 0 {
        seq!['-'] + decimal((-p) as nat)
    } else {
        decimal(p as nat)
    }
}

fn digit_text(d: u32) -> (r: &'static str)
    requires
        d < 10,
    ensures
        r@ == seq![digit_char(d as int)],
{
    proof {
        reveal_strlit("0");
        reveal_strlit("1");
        reveal_strlit("2");
        reveal_strlit("3");
        reveal_strlit("4");
        reveal_strlit("5");
        reveal_strlit("6");
        reveal_strlit("7");
        reveal_strlit("8");
        reveal_strlit("9");
    }
    let r = if d == 0 { "0" }
    else if d == 1 { "1" }
    else if d == 2 { "2" }
    else if d == 3 { "3" }
    else if d == 4 { "4" }
    else if d == 5 { "5" }
    else if d == 6 { "6" }
    else if d == 7 { "7" }
    else if d == 8 { "8" }
    else { "9" };
    assert(r@ =~= seq![digit_char(d as int)]);
    r
}

fn nat_text(n: u32) -> (r: String)
    ensures
        r@ == decimal(n as nat),
    decreases n,
{
    if n < 10 {
        digit_text(n).to_string()
    } else {
        let mut r = nat_text(n / 10);
        r.append(digit_text(n % 10));
        r
    }
}

/// The decimal text of `p`.
pub fn int_to_text(p: i32) -> (r: String)
    ensures
        r@ == int_text(p as int),
{
    if p < 0 {
        let m = (-(p as i64)) as u32;
        let digits = nat_text(m);
        proof {
            reveal_strlit("-");
        }
        let r = "-".to_string().concat(digits.as_str());
        r
    } else {
        nat_text(p as u32)
    }
}

proof fn lemma_digit_char(d: int)
    requires
        0 <= d < 10,
    ensures
        is_digit(digit_char(d)),
        (digit_char(d) as u32) - ('0' as u32) == d,
{
}

/// The decimal digits of `n` are a numeral whose value is `n`.
pub proof fn lemma_decimal_value(n: nat)
    ensures
        is_numeral(decimal(n)),
        digits_value(decimal(n)) == n,
    decreases n,
{
    if n < 10 {
        let s = decimal(n);
        lemma_digit_char(n as int);
        assert(s.drop_last() =~= Seq::<char>::empty());
        assert(digits_value(s.drop_last()) == 0);
        assert(s.last() == digit_char(n as int));
    } else {
        lemma_digit_char((n % 10) as int);
        assert(n == 10 * (n / 10) + n % 10);
        lemma_decimal_value(n / 10);
        let s = decimal(n);
        assert(s.drop_last() =~= decimal(n / 10));
        assert(forall|i: int| 0 <= i < decimal(n / 10).len() ==> s[i] == decimal(n / 10)[i]);
        assert(s.last() == digit_char((n % 10) as int));
        assert(digits_value(s) == 10 * digits_value(decimal(n / 10)) + (n % 10));
    }
}

/// The decimal text of an integer reads back as that integer.
pub proof fn lemma_int_text_round_trip(p: i32)
    ensures
        int_of(int_text(p as int)) == Some(p),
{
    if p < 0 {
        let m = (-p) as nat;
        lemma_decimal_value(m);
        let s = int_text(p as int);
        assert(s.skip(1) =~= decimal(m));
    } else {
        lemma_decimal_value(p as nat);
        assert(decimal(p as nat)[0] != '-' && decimal(p as nat)[0] != '+') by {
            assert(is_digit(decimal(p as nat)[0]));
        }
    }
}

} // verus!
