//! Capability handles: a handle names one client registration against one
//! loaded service.  It packs the service signature into the high 32 bits and
//! the usage signature into the low 32 bits of a `u64`, and travels between
//! processes as a decimal string.

use vstd::prelude::*;
use vstd::string::*;

verus! {

/// The packed handle value: service signature in the high half, usage
/// signature in the low half.
pub open spec fn handle_of(srv: u32, usage: u32) -> u64 {
    (srv * 0x1_0000_0000 + usage) as u64
}

/// The service signature recorded in a packed handle.
pub open spec fn handle_high(h: u64) -> u32 {
    (h / 0x1_0000_0000) as u32
}

/// The usage signature recorded in a packed handle.
pub open spec fn handle_low(h: u64) -> u32 {
    (h % 0x1_0000_0000) as u32
}

/// Packing puts each signature in its own half: splitting gives both back.
pub proof fn lemma_handle_split(srv: u32, usage: u32)
    ensures
        handle_high(handle_of(srv, usage)) == srv,
        handle_low(handle_of(srv, usage)) == usage,
{
    let p: int = 0x1_0000_0000;
    assert(srv * p + usage <= 0xffff_ffff * p + 0xffff_ffff) by (nonlinear_arith)
        requires
            srv <= 0xffff_ffffu32,
            usage <= 0xffff_ffffu32,
            p == 0x1_0000_0000,
    ;
    assert((srv * p + usage) / p == srv && (srv * p + usage) % p == usage) by (nonlinear_arith)
        requires
            0 <= usage < p,
            0 <= srv,
            p == 0x1_0000_0000,
    ;
}

pub fn combine_sig(srv: u32, usage: u32) -> (h: u64)
    ensures
        h == handle_of(srv, usage),
{
    srv as u64 * 0x1_0000_0000 + usage as u64
}

pub fn split_sig(h: u64) -> (r: (u32, u32))
    ensures
        r.0 == handle_high(h),
        r.1 == handle_low(h),
{
    ((h / 0x1_0000_0000) as u32, (h % 0x1_0000_0000) as u32)
}

/// The character for one decimal digit.
pub open spec fn dec_digit(d: nat) -> char
    recommends
        d < 10,
{
    ((d + 48) as u8) as char
}

/// The canonical decimal rendering of a number (no sign, no leading zeros,
/// `0` itself rendered as "0").
pub open spec fn dec_rep(n: nat) -> Seq<char>
    decreases n,
{
    if n < 10 {
        seq![dec_digit(n)]
    } else {
        dec_rep(n / 10).push(dec_digit(n % 10))
    }
}

pub open spec fn is_dec_digit(c: char) -> bool {
    '0' <= c <= '9'
}

/// The numeric value of one digit character (0 for characters below '0').
pub open spec fn digit_val(c: char) -> nat {
    if c as int >= 48 {
        (c as int - 48) as nat
    } else {
        0
    }
}

/// The numeric value of a sequence of decimal digit characters.
pub open spec fn dec_value(s: Seq<char>) -> nat
    decreases s.len(),
{
    if s.len() == 0 {
        0
    } else {
        dec_value(s.drop_last()) * 10 + digit_val(s.last())
    }
}

/// The digit part of a decimal string: everything after an optional leading
/// plus sign.
pub open spec fn dec_body(s: Seq<char>) -> Seq<char> {
    if s.len() > 0 && s[0] == '+' {
        s.subrange(1, s.len() as int)
    } else {
        s
    }
}

/// Whether a character sequence is a decimal numeral that fits in a `u64`:
/// an optional leading plus sign, then one or more digits, value in range.
pub open spec fn valid_u64_dec(s: Seq<char>) -> bool {
    &&& dec_body(s).len() > 0
    &&& (forall|i: int| 0 <= i < dec_body(s).len() ==> is_dec_digit(#[trigger] dec_body(s)[i]))
    &&& dec_value(dec_body(s)) <= u64::MAX
}

/// The handle value a decimal string stands for: its numeral's value, or 0
/// where the string is not a numeral in range.
pub open spec fn parsed_handle(s: Seq<char>) -> u64 {
    if valid_u64_dec(s) {
        dec_value(dec_body(s)) as u64
    } else {
        0
    }
}

proof fn lemma_dec_value_prefix_monotone(s: Seq<char>, i: int)
    requires
        0 <= i <= s.len(),
    ensures
        dec_value(s.subrange(0, i)) <= dec_value(s),
    decreases s.len() - i,
{
    if i == s.len() {
        assert(s.subrange(0, i) =~= s);
    } else {
        lemma_dec_value_prefix_monotone(s, i + 1);
        let p = s.subrange(0, i);
        let q = s.subrange(0, i + 1);
        assert(q.drop_last() =~= p);
        assert(dec_value(q) == dec_value(p) * 10 + digit_val(q.last()));
        assert(dec_value(p) * 10 >= dec_value(p) * 1) by (nonlinear_arith)
            requires
                dec_value(p) >= 0,
        ;
    }
}

/// The canonical rendering is made of digits and reads back as the number
/// it was made from.
pub proof fn lemma_dec_rep_value(n: nat)
    ensures
        dec_rep(n).len() > 0,
        forall|i: int| 0 <= i < dec_rep(n).len() ==> is_dec_digit(#[trigger] dec_rep(n)[i]),
        dec_value(dec_rep(n)) == n,
    decreases n,
{
    if n < 10 {
        let s = dec_rep(n);
        assert(s.drop_last() =~= Seq::<char>::empty());
        assert(s.last() == dec_digit(n));
        assert(dec_digit(n) as nat == n + 48);
        assert(digit_val(dec_digit(n)) == n);
        assert(dec_value(Seq::<char>::empty()) == 0);
        assert(dec_value(s) == dec_value(Seq::<char>::empty()) * 10 + digit_val(s.last()));
    } else {
        lemma_dec_rep_value(n / 10);
        let s = dec_rep(n);
        let h = dec_rep(n / 10);
        assert(s.drop_last() =~= h);
        assert(s.last() == dec_digit(n % 10));
        assert(dec_digit(n % 10) as nat == n % 10 + 48);
        assert(digit_val(dec_digit(n % 10)) == n % 10);
        assert(forall|i: int| 0 <= i < h.len() ==> #[trigger] s[i] == h[i]);
        assert((n / 10) * 10 + n % 10 == n) by (nonlinear_arith);
    }
}

/// A canonical rendering of a `u64` parses back to the same value: it has no
/// sign and its value is in range.
pub proof fn lemma_dec_round_trip(n: u64)
    ensures
        parsed_handle(dec_rep(n as nat)) == n,
{
    lemma_dec_rep_value(n as nat);
    let s = dec_rep(n as nat);
    assert(is_dec_digit(s[0]));
    assert(dec_body(s) =~= s);
}

fn dec_digit_str(d: u8) -> (r: &'static str)
    requires
        d < 10,
    ensures
        r@ =~= seq![dec_digit(d as nat)],
{
    proof {
        reveal_strlit("0");
        reveal_strlit("1");
        reveal_strlit("2");
        reveal_strlit("3");
        reveal_strlit("4");
        reveal_strlit("5");
        reveal_strlit("6");
        reveal_strlit("7");
        reveal_strlit("8");
        reveal_strlit("9");
    }
    match d {
        0 => "0",
        1 => "1",
        2 => "2",
        3 => "3",
        4 => "4",
        5 => "5",
        6 => "6",
        7 => "7",
        8 => "8",
        _ => "9",
    }
}

/// The characters of a digit stack read from the top down.
spec fn digit_chars_rev(digits: Seq<u8>, i: int) -> Seq<char>
    decreases i,
{
    if i <= 0 {
        Seq::empty()
    } else {
        seq![dec_digit(digits[i - 1] as nat)] + digit_chars_rev(digits, i - 1)
    }
}

/// The rendering of the whole number as the rendering of the part still to
/// consume, followed by the digits already stacked.
spec fn split_rendering(digits: Seq<u8>, m: nat) -> Seq<char> {
    if m > 0 {
        dec_rep(m) + digit_chars_rev(digits, digits.len() as int)
    } else {
        digit_chars_rev(digits, digits.len() as int)
    }
}

proof fn lemma_digit_chars_rev_drop(digits: Seq<u8>, i: int)
    requires
        0 <= i < digits.len(),
    ensures
        digit_chars_rev(digits, i) =~= digit_chars_rev(digits.drop_last(), i),
    decreases i,
{
    if i > 0 {
        lemma_digit_chars_rev_drop(digits, i - 1);
    }
}

proof fn lemma_split_rendering_step(digits: Seq<u8>, m: nat, n: nat)
    requires
        digits.len() > 0,
        m > 0,
        digits.last() == m % 10,
        dec_rep(n) == split_rendering(digits.drop_last(), m),
    ensures
        dec_rep(n) == split_rendering(digits, m / 10),
{
    let prev = digits.drop_last();
    let m2 = m / 10;
    assert(digit_chars_rev(digits, digits.len() as int) =~= seq![dec_digit((m % 10) as nat)]
        + digit_chars_rev(digits, digits.len() as int - 1));
    lemma_digit_chars_rev_drop(digits, digits.len() as int - 1);
    if m < 10 {
        assert(m2 == 0);
        assert(dec_rep(m) =~= seq![dec_digit(m)]);
        assert(m % 10 == m);
        assert(split_rendering(digits, m2) =~= dec_rep(m) + digit_chars_rev(prev,
            prev.len() as int));
    } else {
        assert(m2 > 0);
        assert(dec_rep(m) =~= dec_rep(m2) + seq![dec_digit(m % 10)]);
        assert(split_rendering(digits, m2) =~= (dec_rep(m2) + seq![dec_digit(m % 10)])
            + digit_chars_rev(prev, prev.len() as int));
    }
}

/// Render a handle value as its decimal string.
pub fn render_handle(n: u64) -> (s: String)
    ensures
        s@ == dec_rep(n as nat),
{
    if n == 0 {
        let s = String::from_str("0");
        proof {
            reveal_strlit("0");
            assert('0' == dec_digit(0));
            assert(s@ =~= dec_rep(0));
        }
        return s;
    }
    let mut digits: Vec<u8> = Vec::new();
    let mut m: u64 = n;
    loop
        invariant_except_break
            m > 0,
            forall|j: int| 0 <= j < digits@.len() ==> #[trigger] digits@[j] < 10,
            dec_rep(n as nat) == split_rendering(digits@, m as nat),
        ensures
            forall|j: int| 0 <= j < digits@.len() ==> #[trigger] digits@[j] < 10,
            dec_rep(n as nat) == digit_chars_rev(digits@, digits@.len() as int),
        decreases m,
    {
        let d: u8 = (m % 10) as u8;
        let ghost prev = digits@;
        digits.push(d);
        proof {
            assert(digits@.drop_last() =~= prev);
            lemma_split_rendering_step(digits@, m as nat, n as nat);
        }
        m = m / 10;
        if m == 0 {
            break;
        }
    }
    let mut s = String::new();
    let mut i: usize = digits.len();
    while i > 0
        invariant
            i <= digits@.len(),
            forall|j: int| 0 <= j < digits@.len() ==> #[trigger] digits@[j] < 10,
            dec_rep(n as nat) == s@ + digit_chars_rev(digits@, i as int),
        decreases i,
    {
        i = i - 1;
        let part = dec_digit_str(digits[i]);
        s.append(part);
        proof {
            assert(digit_chars_rev(digits@, i + 1) =~= seq![dec_digit(digits@[i as int] as nat)]
                + digit_chars_rev(digits@, i as int));
            assert(s@ + digit_chars_rev(digits@, i as int) =~= dec_rep(n as nat));
        }
    }
    proof {
        assert(s@ + digit_chars_rev(digits@, 0) =~= s@);
    }
    s
}

/// Parse a decimal handle string: the numeral's value, or 0 on anything that
/// is not a decimal numeral fitting a `u64`.
pub fn parse_handle(s: &str) -> (r: u64)
    ensures
        r == parsed_handle(s@),
{
    let n: usize = s.unicode_len();
    let mut i: usize = 0;
    if n > 0 && s.get_char(0) == '+' {
        i = 1;
    }
    proof {
        assert(dec_body(s@) =~= s@.subrange(i as int, n as int));
    }
    if i == n {
        proof {
            assert(dec_body(s@).len() == 0);
        }
        return 0;
    }
    let ghost body = dec_body(s@);
    let mut acc: u64 = 0;
    let start = i;
    while i < n
        invariant
            start <= i <= n,
            n == s@.len(),
            start < n,
            body == dec_body(s@),
            body =~= s@.subrange(start as int, n as int),
            forall|j: int| 0 <= j < i - start ==> is_dec_digit(#[trigger] body[j]),
            acc == dec_value(body.subrange(0, i - start)),
        decreases n - i,
    {
        let c = s.get_char(i);
        proof {
            assert(body[i - start] == s@[i as int]);
        }
        if c < '0' || c > '9' {
            proof {
                assert(!is_dec_digit(dec_body(s@)[i - start]));
                assert(!valid_u64_dec(s@));
            }
            return 0;
        }
        let d: u64 = (c as u32 - 48) as u64;
        proof {
            let p = body.subrange(0, i - start);
            let q = body.subrange(0, i + 1 - start);
            assert(q.drop_last() =~= p);
            assert(q.last() == body[i - start]);
            assert('0' as int == 48 && '9' as int == 57);
            assert(digit_val(c) == d);
            assert(dec_value(q) == acc * 10 + d);
        }
        let next = match acc.checked_mul(10) {
            Some(t) => t.checked_add(d),
            None => None,
        };
        match next {
            Some(v) => {
                acc = v;
            },
            None => {
                proof {
                    lemma_dec_value_prefix_monotone(body, i + 1 - start);
                    assert(dec_value(dec_body(s@)) > u64::MAX);
                    assert(!valid_u64_dec(s@));
                }
                return 0;
            },
        }
        i = i + 1;
    }
    proof {
        assert(body.subrange(0, n - start) =~= body);
        assert(forall|j: int|
            0 <= j < dec_body(s@).len() ==> is_dec_digit(#[trigger] dec_body(s@)[j]));
        assert(valid_u64_dec(s@));
    }
    acc
}

} // verus!
