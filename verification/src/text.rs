//! Character-level helpers shared by the label codec, the version resolver and
//! the remote-output parser: decimal rendering and parsing of integers, string
//! equality and lexicographic comparison.
use vstd::prelude::*;
use vstd::string::*;

verus! {

pub open spec fn is_digit(c: char) -> bool {
    '0' <= c && c <= '9'
}

pub open spec fn digit_val(c: char) -> int {
    c as int - '0' as int
}

pub open spec fn digit_char(d: int) -> char {
    if d == 0 {
        '0'
    } else if d == 1 {
        '1'
    } else if d == 2 {
        '2'
    } else if d == 3 {
        '3'
    } else if d == 4 {
        '4'
    } else if d == 5 {
        '5'
    } else if d == 6 {
        '6'
    } else if d == 7 {
        '7'
    } else if d == 8 {
        '8'
    } else {
        '9'
    }
}

/// The decimal rendering of `n`, most significant digit first, no leading zeros.
pub open spec fn dec_str(n: nat) -> Seq<char>
    decreases n,
{
    if n < 10 {
        seq![digit_char(n as int)]
    } else {
        dec_str(n / 10) + seq![digit_char((n % 10) as int)]
    }
}

pub open spec fn pow10(k: nat) -> nat
    decreases k,
{
    if k == 0 {
        1
    } else {
        10 * pow10((k - 1) as nat)
    }
}

/// The numeric value of a sequence of decimal digits, most significant first.
pub open spec fn digits_val(ds: Seq<char>) -> int
    decreases ds.len(),
{
    if ds.len() == 0 {
        0
    } else {
        digit_val(ds[0]) * pow10((ds.len() - 1) as nat) + digits_val(ds.drop_first())
    }
}

pub proof fn lemma_pow10_pos(k: nat)
    ensures
        pow10(k) >= 1,
    decreases k,
{
    if k > 0 {
        lemma_pow10_pos((k - 1) as nat);
    }
}

pub proof fn lemma_dec_str_digits(n: nat)
    ensures
        dec_str(n).len() >= 1,
        forall|i: int| 0 <= i < dec_str(n).len() ==> is_digit(#[trigger] dec_str(n)[i]),
    decreases n,
{
    if n >= 10 {
        lemma_dec_str_digits(n / 10);
    }
}

pub proof fn lemma_digits_val_push(ds: Seq<char>, c: char)
    ensures
        digits_val(ds + seq![c]) == digits_val(ds) * 10 + digit_val(c),
    decreases ds.len(),
{
    let e = ds + seq![c];
    if ds.len() == 0 {
        assert(e.len() == 1);
        assert(e[0] == c);
        assert(e.drop_first() =~= Seq::<char>::empty());
        assert(pow10(0) == 1);
        assert(digits_val(e) == digit_val(c)) by {
            assert(digits_val(e) == digit_val(e[0]) * pow10(0) + digits_val(e.drop_first()));
        }
        assert(digits_val(ds) == 0);
        assert(digits_val(e) == digits_val(ds) * 10 + digit_val(c));
    } else {
        assert(e[0] == ds[0]);
        assert(e.drop_first() =~= ds.drop_first() + seq![c]);
        lemma_digits_val_push(ds.drop_first(), c);
        let k = (ds.len() - 1) as nat;
        assert(pow10(k + 1) == 10 * pow10(k));
        assert(digit_val(e[0]) * pow10(k + 1) == (digit_val(ds[0]) * pow10(k)) * 10)
            by (nonlinear_arith)
            requires
                pow10(k + 1) == 10 * pow10(k),
                e[0] == ds[0],
        ;
        assert((e.len() - 1) as nat == k + 1);
        assert(digits_val(e) == digit_val(e[0]) * pow10(k + 1) + digits_val(e.drop_first()));
        assert(digits_val(ds) == digit_val(ds[0]) * pow10(k) + digits_val(ds.drop_first()));
        assert(digits_val(e.drop_first()) == digits_val(ds.drop_first()) * 10 + digit_val(c));
        assert(digits_val(e) == digits_val(ds) * 10 + digit_val(c));
    }
}

pub proof fn lemma_dec_str_val(n: nat)
    ensures
        digits_val(dec_str(n)) == n,
    decreases n,
{
    if n < 10 {
        let x = digit_char(n as int);
        let single = seq![x];
        assert(dec_str(n) == single);
        assert(single.len() == 1);
        assert(single.drop_first() =~= Seq::<char>::empty());
        assert(digits_val(single.drop_first()) == 0);
        assert(single[0] == x);
        assert(digits_val(single) == digit_val(x) * pow10(0) + digits_val(single.drop_first()));
        assert(pow10(0) == 1);
        assert(digit_val(x) * 1 == digit_val(x));
        assert(digit_val(x) == n);
    } else {
        lemma_dec_str_val(n / 10);
        lemma_digits_val_push(dec_str(n / 10), digit_char((n % 10) as int));
    }
}

/// Consume decimal digits starting at `i`, accumulating onto `acc`; stops at
/// the first non-digit or the end of the input, and fails on `u64` overflow.
pub open spec fn scan_u64(s: Seq<char>, i: nat, acc: u64) -> Option<(u64, nat)>
    decreases s.len() - i,
{
    if i >= s.len() || !is_digit(s[i as int]) {
        Some((acc, i))
    } else if acc * 10 + digit_val(s[i as int]) <= u64::MAX {
        scan_u64(s, (i + 1) as nat, (acc * 10 + digit_val(s[i as int])) as u64)
    } else {
        None
    }
}

/// A decimal number at position `i`: at least one digit, maximal run, `u64` range.
pub open spec fn parse_u64_at(s: Seq<char>, i: nat) -> Option<(u64, nat)> {
    if i < s.len() && is_digit(s[i as int]) {
        scan_u64(s, i, 0)
    } else {
        None
    }
}

proof fn lemma_scan_digits(s: Seq<char>, i: nat, ds: Seq<char>, acc: u64)
    requires
        i + ds.len() <= s.len(),
        s.subrange(i as int, (i + ds.len()) as int) == ds,
        forall|k: int| 0 <= k < ds.len() ==> is_digit(#[trigger] ds[k]),
        i + ds.len() == s.len() || !is_digit(s[(i + ds.len()) as int]),
        acc * pow10(ds.len()) + digits_val(ds) <= u64::MAX,
        digits_val(ds) >= 0,
    ensures
        scan_u64(s, i, acc) == Some(
            ((acc * pow10(ds.len()) + digits_val(ds)) as u64, (i + ds.len()) as nat),
        ),
    decreases ds.len(),
{
    if ds.len() == 0 {
        assert(pow10(0) == 1);
        assert(i == s.len() || !is_digit(s[i as int]));
        assert(scan_u64(s, i, acc) == Some((acc, i)));
        assert(digits_val(ds) == 0);
        assert(pow10(ds.len()) == 1);
        assert(acc * 1 == acc) by (nonlinear_arith);
        assert((acc * pow10(ds.len()) + digits_val(ds)) as u64 == acc);
        assert((i + ds.len()) as nat == i);
    } else {
        let k = (ds.len() - 1) as nat;
        let d = digit_val(ds[0]);
        let rest = ds.drop_first();
        assert(s[i as int] == ds[0]);
        assert(forall|j: int| 0 <= j < rest.len() ==> is_digit(#[trigger] rest[j]));
        lemma_pow10_pos(k);
        assert(digits_val(rest) >= 0) by {
            lemma_digits_val_nonneg(rest);
        }
        // acc * pow10(k + 1) == (acc * 10) * pow10(k)
        assert(acc * pow10(ds.len()) + digits_val(ds) == (acc * 10 + d) * pow10(k) + digits_val(
            rest,
        ))
            by (nonlinear_arith)
            requires
                pow10(ds.len()) == 10 * pow10(k),
                digits_val(ds) == d * pow10(k) + digits_val(rest),
        ;
        assert(acc * 10 + d <= u64::MAX) by (nonlinear_arith)
            requires
                (acc * 10 + d) * pow10(k) + digits_val(rest) <= u64::MAX,
                pow10(k) >= 1,
                digits_val(rest) >= 0,
                acc * 10 + d >= 0,
        ;
        let acc2 = (acc * 10 + d) as u64;
        assert(is_digit(s[i as int]));
        assert(acc * 10 + digit_val(s[i as int]) <= u64::MAX);
        assert(scan_u64(s, i, acc) == scan_u64(s, (i + 1) as nat, acc2));
        assert(s.subrange(i as int + 1, i as int + 1 + rest.len() as int) =~= rest);
        lemma_scan_digits(s, (i + 1) as nat, rest, acc2);
        assert(scan_u64(s, (i + 1) as nat, acc2) == Some(
            ((acc2 * pow10(rest.len()) + digits_val(rest)) as u64, (i + 1 + rest.len()) as nat),
        ));
        assert(acc2 * pow10(rest.len()) + digits_val(rest) == acc * pow10(ds.len()) + digits_val(ds));
        assert((i + 1 + rest.len()) as nat == (i + ds.len()) as nat);
    }
}

pub proof fn lemma_digits_val_nonneg(ds: Seq<char>)
    requires
        forall|k: int| 0 <= k < ds.len() ==> is_digit(#[trigger] ds[k]),
    ensures
        digits_val(ds) >= 0,
    decreases ds.len(),
{
    if ds.len() > 0 {
        lemma_digits_val_nonneg(ds.drop_first());
        lemma_pow10_pos((ds.len() - 1) as nat);
        assert(digit_val(ds[0]) * pow10((ds.len() - 1) as nat) >= 0) by (nonlinear_arith)
            requires
                digit_val(ds[0]) >= 0,
                pow10((ds.len() - 1) as nat) >= 1,
        ;
    }
}

/// Parsing inverts rendering: a rendered number followed by a non-digit (or the
/// end of the input) parses back to the same value.
pub proof fn lemma_parse_dec_str(s: Seq<char>, i: nat, n: u64)
    requires
        i + dec_str(n as nat).len() <= s.len(),
        s.subrange(i as int, (i + dec_str(n as nat).len()) as int) == dec_str(n as nat),
        i + dec_str(n as nat).len() == s.len() || !is_digit(s[(i + dec_str(n as nat).len()) as int]),
    ensures
        parse_u64_at(s, i) == Some((n, (i + dec_str(n as nat).len()) as nat)),
{
    let ds = dec_str(n as nat);
    lemma_dec_str_digits(n as nat);
    lemma_dec_str_val(n as nat);
    lemma_digits_val_nonneg(ds);
    assert(s[i as int] == ds[0]);
    lemma_scan_digits(s, i, ds, 0);
    assert(0 * pow10(ds.len()) + digits_val(ds) == n);
}

proof fn lemma_scan_range(s: Seq<char>, i: nat, acc: u64)
    requires
        i <= s.len(),
    ensures
        match scan_u64(s, i, acc) {
            Some((v, j)) => i <= j && j <= s.len(),
            None => true,
        },
    decreases s.len() - i,
{
    if i < s.len() && is_digit(s[i as int]) && acc * 10 + digit_val(s[i as int]) <= u64::MAX {
        lemma_scan_range(s, (i + 1) as nat, (acc * 10 + digit_val(s[i as int])) as u64);
    }
}

/// A successful number parse lands strictly past its start and inside the input.
pub proof fn lemma_parse_u64_range(s: Seq<char>, i: nat)
    ensures
        match parse_u64_at(s, i) {
            Some((v, j)) => i < j && j <= s.len(),
            None => true,
        },
{
    if i < s.len() && is_digit(s[i as int]) {
        if i < s.len() && is_digit(s[i as int]) && 0 * 10 + digit_val(s[i as int]) <= u64::MAX {
            lemma_scan_range(s, (i + 1) as nat, (0 * 10 + digit_val(s[i as int])) as u64);
        }
    }
}

/// Append one decimal digit to `out`.
fn push_digit(out: &mut String, d: u64)
    requires
        d < 10,
    ensures
        final(out)@ == old(out)@ + seq![digit_char(d as int)],
{
    proof {
        reveal_strlit("0");
        reveal_strlit("1");
        reveal_strlit("2");
        reveal_strlit("3");
        reveal_strlit("4");
        reveal_strlit("5");
        reveal_strlit("6");
        reveal_strlit("7");
        reveal_strlit("8");
        reveal_strlit("9");
    }
    if d == 0 {
        out.append("0");
    } else if d == 1 {
        out.append("1");
    } else if d == 2 {
        out.append("2");
    } else if d == 3 {
        out.append("3");
    } else if d == 4 {
        out.append("4");
    } else if d == 5 {
        out.append("5");
    } else if d == 6 {
        out.append("6");
    } else if d == 7 {
        out.append("7");
    } else if d == 8 {
        out.append("8");
    } else {
        out.append("9");
    }
    assert(out@ =~= old(out)@ + seq![digit_char(d as int)]);
}

/// Append the decimal rendering of `n` to `out`.
pub fn push_u64(out: &mut String, n: u64)
    ensures
        final(out)@ == old(out)@ + dec_str(n as nat),
    decreases n,
{
    if n >= 10 {
        push_u64(out, n / 10);
        push_digit(out, n % 10);
        assert(out@ =~= old(out)@ + dec_str(n as nat));
    } else {
        push_digit(out, n);
    }
}

/// Parse a decimal `u64` in `s` starting at `start`; returns the value and the
/// position of the first character after the digits.
pub fn parse_u64_from(s: &str, start: usize) -> (r: Option<(u64, usize)>)
    ensures
        match r {
            Some((v, j)) => parse_u64_at(s@, start as nat) == Some((v, j as nat)),
            None => parse_u64_at(s@, start as nat) is None,
        },
{
    let len = s.unicode_len();
    if start >= len {
        return None;
    }
    let c0 = s.get_char(start);
    if !('0' <= c0 && c0 <= '9') {
        return None;
    }
    let mut i = start;
    let mut acc: u64 = 0;
    loop
        invariant
            start <= i <= len,
            len == s@.len(),
            scan_u64(s@, start as nat, 0) == scan_u64(s@, i as nat, acc),
            parse_u64_at(s@, start as nat) == scan_u64(s@, start as nat, 0),
        decreases len - i,
    {
        if i >= len {
            return Some((acc, i));
        }
        let c = s.get_char(i);
        if !('0' <= c && c <= '9') {
            return Some((acc, i));
        }
        let d = (c as u32 - 48) as u64;
        assert(d == digit_val(s@[i as int]));
        match acc.checked_mul(10) {
            None => {
                assert(acc * 10 + d > u64::MAX);
                return None;
            },
            Some(m) => {
                match m.checked_add(d) {
                    None => {
                        return None;
                    },
                    Some(v) => {
                        acc = v;
                        i = i + 1;
                    },
                }
            },
        }
    }
}

/// Character-for-character string equality.
pub fn str_eq(a: &str, b: &str) -> (r: bool)
    ensures
        r == (a@ == b@),
{
    let n = a.unicode_len();
    let m = b.unicode_len();
    if n != m {
        return false;
    }
    let mut i: usize = 0;
    while i < n
        invariant
            0 <= i <= n,
            n == a@.len(),
            n == b@.len(),
            forall|k: int| 0 <= k < i ==> a@[k] == b@[k],
        decreases n - i,
    {
        if a.get_char(i) != b.get_char(i) {
            return false;
        }
        i = i + 1;
    }
    proof {
        assert(a@ =~= b@);
    }
    true
}

pub uninterp spec fn utf8_lossy_of(b: Seq<u8>) -> Seq<char>;

/// Relies on `String::from_utf8_lossy`: the result is a function of the bytes
/// alone, and ASCII bytes decode to themselves.
#[verifier::external_body]
pub fn utf8_lossy(b: &Vec<u8>) -> (r: String)
    ensures
        r@ == utf8_lossy_of(b@),
        (forall|i: int| 0 <= i < b@.len() ==> b@[i] < 128) ==> r@ == b@.map_values(
            |x: u8| x as char,
        ),
{
    String::from_utf8_lossy(b).into_owned()
}

/// ASCII whitespace, as stripped from remote command output.
pub open spec fn is_ws_byte(x: u8) -> bool {
    x == 32 || x == 9 || x == 10 || x == 13
}

pub open spec fn trim_front(b: Seq<u8>) -> Seq<u8>
    decreases b.len(),
{
    if b.len() > 0 && is_ws_byte(b[0]) {
        trim_front(b.drop_first())
    } else {
        b
    }
}

pub open spec fn trim_back(b: Seq<u8>) -> Seq<u8>
    decreases b.len(),
{
    if b.len() > 0 && is_ws_byte(b.last()) {
        trim_back(b.drop_last())
    } else {
        b
    }
}

/// `b` without leading and trailing ASCII whitespace.
pub open spec fn trim_bytes(b: Seq<u8>) -> Seq<u8> {
    trim_back(trim_front(b))
}

proof fn lemma_trim_front_at(b: Seq<u8>, lo: int)
    requires
        0 <= lo <= b.len(),
        forall|j: int| 0 <= j < lo ==> is_ws_byte(#[trigger] b[j]),
        lo < b.len() ==> !is_ws_byte(b[lo]),
    ensures
        trim_front(b) == b.skip(lo),
    decreases lo,
{
    if lo == 0 {
        assert(b.skip(0) =~= b);
    } else {
        assert(is_ws_byte(b[0]));
        assert(b.drop_first() =~= b.skip(1));
        lemma_trim_front_at(b.drop_first(), lo - 1);
        assert(b.drop_first().skip(lo - 1) =~= b.skip(lo));
    }
}

proof fn lemma_trim_back_at(b: Seq<u8>, hi: int)
    requires
        0 <= hi <= b.len(),
        forall|j: int| hi <= j < b.len() ==> is_ws_byte(#[trigger] b[j]),
        hi > 0 ==> !is_ws_byte(b[hi - 1]),
    ensures
        trim_back(b) == b.take(hi),
    decreases b.len() - hi,
{
    if hi == b.len() {
        if b.len() > 0 && is_ws_byte(b.last()) {
            assert(!is_ws_byte(b[hi - 1]));
            assert(false);
        }
        assert(b.take(hi) =~= b);
    } else {
        assert(is_ws_byte(b.last()));
        lemma_trim_back_at(b.drop_last(), hi);
        assert(b.drop_last().take(hi) =~= b.take(hi));
    }
}

/// Strip ASCII whitespace from both ends.
pub fn trim_ascii(b: &Vec<u8>) -> (r: Vec<u8>)
    ensures
        r@ == trim_bytes(b@),
{
    let n = b.len();
    let mut lo: usize = 0;
    while lo < n && (b[lo] == 32 || b[lo] == 9 || b[lo] == 10 || b[lo] == 13)
        invariant
            0 <= lo <= n,
            n == b@.len(),
            forall|j: int| 0 <= j < lo ==> is_ws_byte(#[trigger] b@[j]),
        decreases n - lo,
    {
        lo = lo + 1;
    }
    proof {
        lemma_trim_front_at(b@, lo as int);
    }
    let mut hi: usize = n;
    while hi > lo && (b[hi - 1] == 32 || b[hi - 1] == 9 || b[hi - 1] == 10 || b[hi - 1] == 13)
        invariant
            lo <= hi <= n,
            n == b@.len(),
            forall|j: int| hi <= j < n ==> is_ws_byte(#[trigger] b@[j]),
        decreases hi,
    {
        hi = hi - 1;
    }
    proof {
        let f = b@.skip(lo as int);
        lemma_trim_back_at(f, hi - lo);
        assert(f.take(hi - lo) =~= b@.subrange(lo as int, hi as int));
    }
    let mut r: Vec<u8> = Vec::new();
    let mut i = lo;
    while i < hi
        invariant
            lo <= i <= hi <= n,
            n == b@.len(),
            r@ == b@.subrange(lo as int, i as int),
        decreases hi - i,
    {
        r.push(b[i]);
        proof {
            assert(b@.subrange(lo as int, i + 1) =~= b@.subrange(lo as int, i as int).push(
                b@[i as int],
            ));
        }
        i = i + 1;
    }
    r
}

/// Lexicographic order on character sequences, by code point.
pub open spec fn lex_le(a: Seq<char>, b: Seq<char>) -> bool
    decreases a.len(),
{
    if a.len() == 0 {
        true
    } else if b.len() == 0 {
        false
    } else if (a[0] as int) < (b[0] as int) {
        true
    } else if (a[0] as int) > (b[0] as int) {
        false
    } else {
        lex_le(a.drop_first(), b.drop_first())
    }
}

pub proof fn lemma_lex_le_refl(a: Seq<char>)
    ensures
        lex_le(a, a),
    decreases a.len(),
{
    if a.len() > 0 {
        lemma_lex_le_refl(a.drop_first());
    }
}

pub proof fn lemma_lex_le_total(a: Seq<char>, b: Seq<char>)
    ensures
        lex_le(a, b) || lex_le(b, a),
    decreases a.len(),
{
    if a.len() > 0 && b.len() > 0 && a[0] == b[0] {
        lemma_lex_le_total(a.drop_first(), b.drop_first());
    }
}

pub proof fn lemma_lex_le_trans(a: Seq<char>, b: Seq<char>, c: Seq<char>)
    requires
        lex_le(a, b),
        lex_le(b, c),
    ensures
        lex_le(a, c),
    decreases a.len(),
{
    if a.len() > 0 && b.len() > 0 && c.len() > 0 && a[0] == b[0] && b[0] == c[0] {
        lemma_lex_le_trans(a.drop_first(), b.drop_first(), c.drop_first());
    }
}

/// Lexicographic comparison of two strings.
pub fn str_lex_le(a: &str, b: &str) -> (r: bool)
    ensures
        r == lex_le(a@, b@),
{
    let n = a.unicode_len();
    let m = b.unicode_len();
    let mut i: usize = 0;
    proof {
        assert(a@.skip(0) =~= a@);
        assert(b@.skip(0) =~= b@);
    }
    loop
        invariant
            0 <= i,
            i <= n,
            i <= m,
            n == a@.len(),
            m == b@.len(),
            lex_le(a@, b@) == lex_le(a@.skip(i as int), b@.skip(i as int)),
        decreases n - i,
    {
        if i >= n {
            return true;
        }
        if i >= m {
            return false;
        }
        let ca = a.get_char(i);
        let cb = b.get_char(i);
        if ca != cb {
            proof {
                assert(a@.skip(i as int)[0] == ca);
                assert(b@.skip(i as int)[0] == cb);
            }
            return (ca as u32) < (cb as u32);
        }
        proof {
            assert(a@.skip(i as int).drop_first() =~= a@.skip(i + 1));
            assert(b@.skip(i as int).drop_first() =~= b@.skip(i + 1));
            assert(a@.skip(i as int)[0] == ca);
            assert(b@.skip(i as int)[0] == cb);
        }
        i = i + 1;
    }
}

} // verus!
