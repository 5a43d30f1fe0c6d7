//! Text to numbers: splitting at commas, trimming white space, and reading
//! decimal integers as Rust's `i64::from_str` does.

use vstd::prelude::*;
use vstd::std_specs::iter::IteratorSpec;
use crate::types::Val;

verus! {

/// Why a text is not an integer, as Rust's `IntErrorKind` says.
#[derive(Copy, Clone, Debug, PartialEq, Eq, Structural)]
pub enum IntErrorKind {
    Empty,
    InvalidDigit,
    PosOverflow,
    NegOverflow,
}

/// White space as Rust's `char::is_whitespace` defines it (Unicode's
/// `White_Space` property).
pub open spec fn is_ws(c: char) -> bool {
    let x = c as u32;
    ||| 0x09 <= x <= 0x0D
    ||| x == 0x20
    ||| x == 0x85
    ||| x == 0xA0
    ||| x == 0x1680
    ||| 0x2000 <= x <= 0x200A
    ||| x == 0x2028
    ||| x == 0x2029
    ||| x == 0x202F
    ||| x == 0x205F
    ||| x == 0x3000
}

/// The text without its leading white space.
pub open spec fn ltrim(s: Seq<char>) -> Seq<char>
    decreases s.len(),
{
    if s.len() > 0 && is_ws(s[0]) { ltrim(s.subrange(1, s.len() as int)) } else { s }
}

/// The text without its trailing white space.
pub open spec fn rtrim(s: Seq<char>) -> Seq<char>
    decreases s.len(),
{
    if s.len() > 0 && is_ws(s.last()) { rtrim(s.drop_last()) } else { s }
}

/// The text without white space at either end, as `str::trim` gives it.
pub open spec fn trim(s: Seq<char>) -> Seq<char> {
    rtrim(ltrim(s))
}

/// The pieces of the text between commas, as `str::split(',')` gives them.
pub open spec fn split_commas(s: Seq<char>) -> Seq<Seq<char>>
    decreases s.len(),
{
    if s.len() == 0 {
        seq![Seq::empty()]
    } else {
        let p = split_commas(s.drop_last());
        if s.last() == ',' {
            p.push(Seq::empty())
        } else {
            p.update(p.len() - 1, p.last().push(s.last()))
        }
    }
}

/// The pieces, trimmed, without the empty ones.
pub open spec fn nonempty_trimmed(ts: Seq<Seq<char>>) -> Seq<Seq<char>>
    decreases ts.len(),
{
    if ts.len() == 0 {
        Seq::empty()
    } else {
        let p = nonempty_trimmed(ts.drop_last());
        let t = trim(ts.last());
        if t.len() > 0 { p.push(t) } else { p }
    }
}

/// Whether the character is a decimal digit.
pub open spec fn is_digit(c: char) -> bool {
    '0' <= c && c <= '9'
}

/// The value of a decimal digit.
pub open spec fn digit_value(c: char) -> int {
    (c as u32) - ('0' as u32)
}

/// Reads decimal digits from the left, as `from_str` does: a character that
/// is not a digit is an error; so is a magnitude beyond what `i64` holds
/// (2^63 for a negative number), found at the digit that passes it.
pub open spec fn digits_fold(ds: Seq<char>, neg: bool) -> Result<int, IntErrorKind>
    decreases ds.len(),
{
    if ds.len() == 0 {
        Ok(0)
    } else {
        match digits_fold(ds.drop_last(), neg) {
            Err(e) => Err(e),
            Ok(v) => if !is_digit(ds.last()) {
                Err(IntErrorKind::InvalidDigit)
            } else {
                let w = v * 10 + digit_value(ds.last());
                if neg && w > 0x8000_0000_0000_0000 {
                    Err(IntErrorKind::NegOverflow)
                } else if !neg && w > 0x7FFF_FFFF_FFFF_FFFF {
                    Err(IntErrorKind::PosOverflow)
                } else {
                    Ok(w)
                }
            },
        }
    }
}

/// The `i64` that a text denotes, as `i64::from_str` reads it: an optional
/// sign, then at least one decimal digit.
pub open spec fn i64_of(s: Seq<char>) -> Result<i64, IntErrorKind> {
    if s.len() == 0 {
        Err(IntErrorKind::Empty)
    } else if s.len() == 1 && (s[0] == '+' || s[0] == '-') {
        Err(IntErrorKind::InvalidDigit)
    } else {
        let neg = s[0] == '-';
        let ds = if s[0] == '+' || s[0] == '-' { s.subrange(1, s.len() as int) } else { s };
        match digits_fold(ds, neg) {
            Ok(w) => Ok((if neg { -w } else { w }) as i64),
            Err(e) => Err(e),
        }
    }
}

/// Reads each text in turn; the first one that is not an `i64` stops the
/// reading with its text and the reason.
pub open spec fn parse_all(ts: Seq<Seq<char>>) -> Result<Seq<i64>, (Seq<char>, IntErrorKind)>
    decreases ts.len(),
{
    if ts.len() == 0 {
        Ok(Seq::empty())
    } else {
        match parse_all(ts.drop_last()) {
            Err(e) => Err(e),
            Ok(vs) => match i64_of(ts.last()) {
                Ok(v) => Ok(vs.push(v)),
                Err(k) => Err((ts.last(), k)),
            },
        }
    }
}

/// What `ParseIntError` says for each reason.
pub open spec fn reason_text(k: IntErrorKind) -> Seq<char> {
    match k {
        IntErrorKind::Empty => "cannot parse integer from empty string"@,
        IntErrorKind::InvalidDigit => "invalid digit found in string"@,
        IntErrorKind::PosOverflow => "number too large to fit in target type"@,
        IntErrorKind::NegOverflow => "number too small to fit in target type"@,
    }
}

/// The message for a text that is not an `i64`.
pub open spec fn failure_text(token: Seq<char>, k: IntErrorKind) -> Seq<char> {
    "Failed to parse '"@ + token + "' as i64: "@ + reason_text(k)
}

/// The comma-separated values of `input`: each piece trimmed, empty pieces
/// skipped, the rest read as `i64`; the first piece that is not one gives the
/// error.
pub open spec fn parse_val_spec(input: Seq<char>) -> Result<Seq<i64>, Seq<char>> {
    match parse_all(nonempty_trimmed(split_commas(input))) {
        Ok(vs) => Ok(vs),
        Err((t, k)) => Err(failure_text(t, k)),
    }
}

/// Builds a `String` from characters with std's `FromIterator<char>` for
/// `String`, which appends them in order.
#[verifier::external_body]
pub(crate) fn string_of(cs: &Vec<char>) -> (s: String)
    ensures
        s@ == cs@,
{
    cs.iter().collect()
}

/// The characters of a text.
pub fn chars_of(s: &str) -> (v: Vec<char>)
    ensures
        v@ == s@,
{
    let mut v: Vec<char> = Vec::new();
    for c in it: s.chars()
        invariant
            it.seq() == s@,
            v@ == it.seq().subrange(0, it.index() as int),
    {
        v.push(c);
        assert(v@ =~= it.seq().subrange(0, it.index() + 1));
    }
    assert(v@ =~= s@);
    v
}

/// Whether the character is white space.
pub fn is_whitespace(c: char) -> (b: bool)
    ensures
        b == is_ws(c),
{
    let x = c as u32;
    (0x09 <= x && x <= 0x0D) || x == 0x20 || x == 0x85 || x == 0xA0 || x == 0x1680
        || (0x2000 <= x && x <= 0x200A) || x == 0x2028 || x == 0x2029 || x == 0x202F
        || x == 0x205F || x == 0x3000
}

proof fn lemma_ltrim_step(s: Seq<char>, i: int)
    requires
        0 <= i < s.len(),
        is_ws(s[i]),
    ensures
        ltrim(s.subrange(i, s.len() as int)) == ltrim(s.subrange(i + 1, s.len() as int)),
{
    let t = s.subrange(i, s.len() as int);
    assert(t.subrange(1, t.len() as int) =~= s.subrange(i + 1, s.len() as int));
}

/// The text `t` without white space at either end.
pub fn trim_chars(t: &Vec<char>) -> (r: Vec<char>)
    ensures
        r@ == trim(t@),
{
    let n = t.len();
    let mut a: usize = 0;
    assert(t@.subrange(0, n as int) =~= t@);
    while a < n && is_whitespace(t[a])
        invariant
            n == t@.len(),
            a <= n,
            ltrim(t@) == ltrim(t@.subrange(a as int, n as int)),
        decreases n - a,
    {
        proof { lemma_ltrim_step(t@, a as int); }
        a = a + 1;
    }
    let ghost l = t@.subrange(a as int, n as int);
    assert(ltrim(l) == l);
    let mut b: usize = n;
    while b > a && is_whitespace(t[b - 1])
        invariant
            n == t@.len(),
            a <= b <= n,
            l == t@.subrange(a as int, n as int),
            rtrim(l) == rtrim(t@.subrange(a as int, b as int)),
        decreases b - a,
    {
        proof {
            let m = t@.subrange(a as int, b as int);
            assert(m.drop_last() =~= t@.subrange(a as int, b - 1));
            assert(m.last() == t@[b - 1]);
        }
        b = b - 1;
    }
    let mut r: Vec<char> = Vec::new();
    let mut k: usize = a;
    while k < b
        invariant
            a <= k <= b,
            b <= t@.len(),
            r@ == t@.subrange(a as int, k as int),
        decreases b - k,
    {
        r.push(t[k]);
        k = k + 1;
        assert(r@ =~= t@.subrange(a as int, k as int));
    }
    proof {
        let m = t@.subrange(a as int, b as int);
        if m.len() > 0 {
            assert(m.last() == t@[b - 1]);
        }
        assert(rtrim(m) == m);
    }
    r
}

/// Reads a text as `i64::from_str` does.
pub fn parse_i64(s: &Vec<char>) -> (r: Result<i64, IntErrorKind>)
    ensures
        r == i64_of(s@),
{
    let n = s.len();
    if n == 0 {
        return Err(IntErrorKind::Empty);
    }
    if n == 1 && (s[0] == '+' || s[0] == '-') {
        return Err(IntErrorKind::InvalidDigit);
    }
    let neg = s[0] == '-';
    let start: usize = if s[0] == '+' || s[0] == '-' { 1 } else { 0 };
    let ghost ds = if s@[0] == '+' || s@[0] == '-' { s@.subrange(1, n as int) } else { s@ };
    assert(ds =~= s@.subrange(start as int, n as int));
    let mut acc: u128 = 0;
    let mut k: usize = start;
    while k < n
        invariant
            start <= k <= n,
            n == s@.len(),
            n > 0,
            !(n == 1 && (s@[0] == '+' || s@[0] == '-')),
            neg == (s@[0] == '-'),
            ds == (if s@[0] == '+' || s@[0] == '-' { s@.subrange(1, n as int) } else { s@ }),
            ds == s@.subrange(start as int, n as int),
            digits_fold(s@.subrange(start as int, k as int), neg) == Ok::<int, IntErrorKind>(acc as int),
            acc <= 0x8000_0000_0000_0000,
        decreases n - k,
    {
        let c = s[k];
        let ghost pre = s@.subrange(start as int, k as int);
        assert(s@.subrange(start as int, k + 1).drop_last() =~= pre);
        assert(s@.subrange(start as int, k + 1).last() == c);
        let ghost full = s@.subrange(start as int, n as int);
        let ghost kk: int = (k + 1 - start) as int;
        assert(full.subrange(0, kk) =~= s@.subrange(start as int, k + 1));
        if !('0' <= c && c <= '9') {
            assert(digits_fold(s@.subrange(start as int, k + 1), neg) == Err::<int, IntErrorKind>(IntErrorKind::InvalidDigit));
            proof { lemma_fold_error_stays(full, kk, neg); }
            return Err(IntErrorKind::InvalidDigit);
        }
        let d = (c as u32 - '0' as u32) as u128;
        let w = acc * 10 + d;
        if neg && w > 0x8000_0000_0000_0000 {
            assert(digits_fold(s@.subrange(start as int, k + 1), neg) == Err::<int, IntErrorKind>(IntErrorKind::NegOverflow));
            proof { lemma_fold_error_stays(full, kk, neg); }
            return Err(IntErrorKind::NegOverflow);
        }
        if !neg && w > 0x7FFF_FFFF_FFFF_FFFF {
            assert(digits_fold(s@.subrange(start as int, k + 1), neg) == Err::<int, IntErrorKind>(IntErrorKind::PosOverflow));
            proof { lemma_fold_error_stays(full, kk, neg); }
            return Err(IntErrorKind::PosOverflow);
        }
        acc = w;
        k = k + 1;
    }
    assert(s@.subrange(start as int, n as int) =~= ds);
    if neg {
        if acc == 0x8000_0000_0000_0000 {
            Ok(i64::MIN)
        } else {
            let m = acc as i64;
            Ok(-m)
        }
    } else {
        Ok(acc as i64)
    }
}

/// Once reading fails on a prefix, it fails the same way on the whole.
proof fn lemma_fold_error_stays(ds: Seq<char>, k: int, neg: bool)
    requires
        0 <= k <= ds.len(),
        digits_fold(ds.subrange(0, k), neg) is Err,
    ensures
        digits_fold(ds, neg) == digits_fold(ds.subrange(0, k), neg),
    decreases ds.len() - k,
{
    if k < ds.len() {
        assert(ds.subrange(0, k + 1).drop_last() =~= ds.subrange(0, k));
        lemma_fold_error_stays(ds, k + 1, neg);
    } else {
        assert(ds.subrange(0, k) =~= ds);
    }
}

/// The message for a text that is not an `i64`.
fn failure_of(token: &Vec<char>, k: IntErrorKind) -> (m: String)
    ensures
        m@ == failure_text(token@, k),
{
    let mut cs = chars_of("Failed to parse '");
    let mut t = token.clone();
    cs.append(&mut t);
    let mut mid = chars_of("' as i64: ");
    cs.append(&mut mid);
    let mut reason = match k {
        IntErrorKind::Empty => chars_of("cannot parse integer from empty string"),
        IntErrorKind::InvalidDigit => chars_of("invalid digit found in string"),
        IntErrorKind::PosOverflow => chars_of("number too large to fit in target type"),
        IntErrorKind::NegOverflow => chars_of("number too small to fit in target type"),
    };
    cs.append(&mut reason);
    string_of(&cs)
}

/// Parses the comma-separated values of `input`: every piece is trimmed,
/// empty pieces are skipped, and the others are read as `Val`; the first
/// piece that is not a `Val` gives the error "Failed to parse '<piece>' as
/// i64: <reason>".
pub fn parse_val_string(input: &str) -> (r: Result<Vec<Val>, String>)
    requires
        input@.len() < usize::MAX,
    ensures
        match r {
            Ok(v) => parse_val_spec(input@) == Ok::<Seq<i64>, Seq<char>>(v@),
            Err(m) => parse_val_spec(input@) == Err::<Seq<i64>, Seq<char>>(m@),
        },
{
    let cs = chars_of(input);
    let n = cs.len();
    let mut vals: Vec<Val> = Vec::new();
    let mut cur: Vec<char> = Vec::new();
    let ghost mut done: Seq<Seq<char>> = Seq::empty();
    let mut i: usize = 0;
    while i <= n
        invariant
            n == cs@.len(),
            n < usize::MAX,
            cs@ == input@,
            i <= n + 1,
            i <= n ==> split_commas(cs@.subrange(0, i as int)) == done.push(cur@),
            i == n + 1 ==> split_commas(cs@) == done,
            parse_all(nonempty_trimmed(done)) == Ok::<Seq<i64>, (Seq<char>, IntErrorKind)>(vals@),
        decreases n + 1 - i,
    {
        if i < n && cs[i] != ',' {
            let c = cs[i];
            proof {
                let p = cs@.subrange(0, i as int);
                assert(cs@.subrange(0, i + 1).drop_last() =~= p);
                assert(cs@.subrange(0, i + 1).last() == c);
                assert(done.push(cur@).update(done.len() as int, cur@.push(c)) =~= done.push(cur@.push(c)));
            }
            cur.push(c);
            i = i + 1;
        } else {
            proof {
                if i < n {
                    assert(cs@.subrange(0, i + 1).drop_last() =~= cs@.subrange(0, i as int));
                    assert(cs@.subrange(0, i + 1).last() == ',');
                } else {
                    assert(cs@.subrange(0, i as int) =~= cs@);
                }
                assert(done.push(cur@).drop_last() =~= done);
            }
            let t = trim_chars(&cur);
            if t.len() > 0 {
                match parse_i64(&t) {
                    Ok(v) => {
                        proof {
                            assert(nonempty_trimmed(done).push(t@).drop_last() =~= nonempty_trimmed(done));
                        }
                        vals.push(v);
                    },
                    Err(k) => {
                        proof {
                            lemma_split_prefix(cs@, i as int);
                            assert(split_commas(cs@).subrange(0, (done.len() + 1) as int) =~= done.push(cur@));
                            lemma_parse_all_error_stays(split_commas(cs@), (done.len() + 1) as int);
                            assert(nonempty_trimmed(done).push(t@).drop_last() =~= nonempty_trimmed(done));
                        }
                        return Err(failure_of(&t, k));
                    },
                }
            }
            proof { done = done.push(cur@); }
            cur = Vec::new();
            i = i + 1;
        }
    }
    Ok(vals)
}

/// The pieces of a prefix that ends before a comma (or at the end) are the
/// first pieces of the whole text.
proof fn lemma_split_prefix(s: Seq<char>, i: int)
    requires
        0 <= i <= s.len(),
        i < s.len() ==> s[i] == ',',
    ensures
        split_commas(s).len() >= split_commas(s.subrange(0, i)).len(),
        split_commas(s).subrange(0, split_commas(s.subrange(0, i)).len() as int) == split_commas(s.subrange(0, i)),
{
    let p = s.subrange(0, i);
    if i == s.len() {
        assert(p =~= s);
        assert(split_commas(s).subrange(0, split_commas(s).len() as int) =~= split_commas(s));
    } else {
        let q = s.subrange(0, i + 1);
        assert(q.drop_last() =~= p);
        assert(q.last() == ',');
        lemma_split_extend(s, i + 1);
        let sp = split_commas(p);
        let sq = split_commas(q);
        assert(sq == sp.push(Seq::empty()));
        assert(split_commas(s).subrange(0, sp.len() as int) =~= sp);
    }
}

/// Extending a text keeps all its pieces but the last, and the last one as a
/// prefix of the new last one.
proof fn lemma_split_extend(s: Seq<char>, j: int)
    requires
        0 <= j <= s.len(),
    ensures
        split_commas(s.subrange(0, j)).len() <= split_commas(s).len(),
        forall|x: int| 0 <= x < split_commas(s.subrange(0, j)).len() - 1
            ==> #[trigger] split_commas(s)[x] == split_commas(s.subrange(0, j))[x],
    decreases s.len() - j,
{
    if j < s.len() {
        lemma_split_extend(s, j + 1);
        let a = s.subrange(0, j);
        let b = s.subrange(0, j + 1);
        assert(b.drop_last() =~= a);
    } else {
        assert(s.subrange(0, j) =~= s);
    }
}

/// Once reading fails on the first pieces, it fails the same way on all.
proof fn lemma_parse_all_error_stays(ts: Seq<Seq<char>>, k: int)
    requires
        0 <= k <= ts.len(),
    ensures
        parse_all(nonempty_trimmed(ts.subrange(0, k))) is Err ==>
            parse_all(nonempty_trimmed(ts)) == parse_all(nonempty_trimmed(ts.subrange(0, k))),
    decreases ts.len() - k,
{
    if k < ts.len() {
        let a = ts.subrange(0, k);
        let b = ts.subrange(0, k + 1);
        assert(b.drop_last() =~= a);
        let p = nonempty_trimmed(a);
        let t = trim(b.last());
        assert(p.push(t).drop_last() =~= p);
        lemma_parse_all_error_stays(ts, k + 1);
    } else {
        assert(ts.subrange(0, k) =~= ts);
    }
}


/// Reads decimal digits from the left for an unsigned type whose largest
/// value is `max`.
pub open spec fn udigits_fold(ds: Seq<char>, max: int) -> Result<int, IntErrorKind>
    decreases ds.len(),
{
    if ds.len() == 0 {
        Ok(0)
    } else {
        match udigits_fold(ds.drop_last(), max) {
            Err(e) => Err(e),
            Ok(v) => if !is_digit(ds.last()) {
                Err(IntErrorKind::InvalidDigit)
            } else {
                let w = v * 10 + digit_value(ds.last());
                if w > max { Err(IntErrorKind::PosOverflow) } else { Ok(w) }
            },
        }
    }
}

/// The `u16` that a text denotes, as `u16::from_str` reads it: an optional
/// `+`, then at least one decimal digit.
pub open spec fn u16_of(s: Seq<char>) -> Result<u16, IntErrorKind> {
    if s.len() == 0 {
        Err(IntErrorKind::Empty)
    } else if s.len() == 1 && (s[0] == '+' || s[0] == '-') {
        Err(IntErrorKind::InvalidDigit)
    } else {
        let ds = if s[0] == '+' { s.subrange(1, s.len() as int) } else { s };
        match udigits_fold(ds, 0xFFFF) {
            Ok(w) => Ok(w as u16),
            Err(e) => Err(e),
        }
    }
}

/// Once reading fails on a prefix, it fails the same way on the whole.
proof fn lemma_ufold_error_stays(ds: Seq<char>, k: int, max: int)
    requires
        0 <= k <= ds.len(),
        udigits_fold(ds.subrange(0, k), max) is Err,
    ensures
        udigits_fold(ds, max) == udigits_fold(ds.subrange(0, k), max),
    decreases ds.len() - k,
{
    if k < ds.len() {
        assert(ds.subrange(0, k + 1).drop_last() =~= ds.subrange(0, k));
        lemma_ufold_error_stays(ds, k + 1, max);
    } else {
        assert(ds.subrange(0, k) =~= ds);
    }
}

/// Reads a text as `u16::from_str` does.
pub fn parse_u16(s: &Vec<char>) -> (r: Result<u16, IntErrorKind>)
    ensures
        r == u16_of(s@),
{
    let n = s.len();
    if n == 0 {
        return Err(IntErrorKind::Empty);
    }
    if n == 1 && (s[0] == '+' || s[0] == '-') {
        return Err(IntErrorKind::InvalidDigit);
    }
    let start: usize = if s[0] == '+' { 1 } else { 0 };
    let ghost ds = if s@[0] == '+' { s@.subrange(1, n as int) } else { s@ };
    assert(ds =~= s@.subrange(start as int, n as int));
    let mut acc: u32 = 0;
    let mut k: usize = start;
    while k < n
        invariant
            start <= k <= n,
            n == s@.len(),
            n > 0,
            !(n == 1 && (s@[0] == '+' || s@[0] == '-')),
            ds == (if s@[0] == '+' { s@.subrange(1, n as int) } else { s@ }),
            ds == s@.subrange(start as int, n as int),
            udigits_fold(s@.subrange(start as int, k as int), 0xFFFF) == Ok::<int, IntErrorKind>(acc as int),
            acc <= 0xFFFF,
        decreases n - k,
    {
        let c = s[k];
        let ghost pre = s@.subrange(start as int, k as int);
        assert(s@.subrange(start as int, k + 1).drop_last() =~= pre);
        assert(s@.subrange(start as int, k + 1).last() == c);
        let ghost full = s@.subrange(start as int, n as int);
        let ghost kk: int = (k + 1 - start) as int;
        assert(full.subrange(0, kk) =~= s@.subrange(start as int, k + 1));
        if !('0' <= c && c <= '9') {
            assert(udigits_fold(s@.subrange(start as int, k + 1), 0xFFFF) == Err::<int, IntErrorKind>(IntErrorKind::InvalidDigit));
            proof { lemma_ufold_error_stays(full, kk, 0xFFFF); }
            return Err(IntErrorKind::InvalidDigit);
        }
        let d = c as u32 - '0' as u32;
        let w = acc * 10 + d;
        if w > 0xFFFF {
            assert(udigits_fold(s@.subrange(start as int, k + 1), 0xFFFF) == Err::<int, IntErrorKind>(IntErrorKind::PosOverflow));
            proof { lemma_ufold_error_stays(full, kk, 0xFFFF); }
            return Err(IntErrorKind::PosOverflow);
        }
        acc = w;
        k = k + 1;
    }
    assert(s@.subrange(start as int, n as int) =~= ds);
    Ok(acc as u16)
}

/// The text before the first `:` (all of it if there is none), as the first
/// piece of `str::split(':')`.
pub open spec fn first_segment(s: Seq<char>) -> Seq<char>
    decreases s.len(),
{
    if s.len() == 0 || s[0] == ':' { Seq::empty() } else { seq![s[0]] + first_segment(s.subrange(1, s.len() as int)) }
}

/// The text after the last `:` (all of it if there is none), as the last
/// piece of `str::split(':')`.
pub open spec fn last_segment(s: Seq<char>) -> Seq<char>
    decreases s.len(),
{
    if s.len() == 0 { s } else if s.last() == ':' { Seq::empty() } else { last_segment(s.drop_last()).push(s.last()) }
}

/// The text before the first `:`.
pub fn first_segment_of(s: &Vec<char>) -> (r: Vec<char>)
    ensures
        r@ == first_segment(s@),
{
    let n = s.len();
    let mut r: Vec<char> = Vec::new();
    let mut i: usize = 0;
    assert(s@.subrange(0, n as int) =~= s@);
    while i < n && s[i] != ':'
        invariant
            i <= n,
            n == s@.len(),
            r@ == s@.subrange(0, i as int),
            first_segment(s@) == r@ + first_segment(s@.subrange(i as int, n as int)),
        decreases n - i,
    {
        proof {
            let t = s@.subrange(i as int, n as int);
            assert(t.subrange(1, t.len() as int) =~= s@.subrange(i + 1, n as int));
            assert(t[0] == s@[i as int]);
            assert(r@ + (seq![s@[i as int]] + first_segment(s@.subrange(i + 1, n as int)))
                =~= r@.push(s@[i as int]) + first_segment(s@.subrange(i + 1, n as int)));
        }
        r.push(s[i]);
        i = i + 1;
        assert(r@ =~= s@.subrange(0, i as int));
    }
    proof {
        let t = s@.subrange(i as int, n as int);
        assert(first_segment(t) == Seq::<char>::empty());
        assert(r@ + Seq::<char>::empty() =~= r@);
    }
    r
}

/// The text after the last `:`.
pub fn last_segment_of(s: &Vec<char>) -> (r: Vec<char>)
    ensures
        r@ == last_segment(s@),
{
    let n = s.len();
    let mut j: usize = n;
    assert(s@.subrange(0, n as int) =~= s@);
    assert(s@.subrange(n as int, n as int) =~= Seq::<char>::empty());
    while j > 0 && s[j - 1] != ':'
        invariant
            j <= n,
            n == s@.len(),
            last_segment(s@) == last_segment(s@.subrange(0, j as int)) + s@.subrange(j as int, n as int),
        decreases j,
    {
        proof {
            let p = s@.subrange(0, j as int);
            assert(p.drop_last() =~= s@.subrange(0, j - 1));
            assert(p.last() == s@[j - 1]);
            assert(last_segment(s@.subrange(0, j - 1)).push(s@[j - 1]) + s@.subrange(j as int, n as int)
                =~= last_segment(s@.subrange(0, j - 1)) + s@.subrange(j - 1, n as int));
        }
        j = j - 1;
    }
    proof {
        let p = s@.subrange(0, j as int);
        if j > 0 {
            assert(p.last() == s@[j - 1]);
        }
        assert(last_segment(p) == Seq::<char>::empty());
        assert(Seq::<char>::empty() + s@.subrange(j as int, n as int) =~= s@.subrange(j as int, n as int));
    }
    let mut r: Vec<char> = Vec::new();
    let mut k: usize = j;
    while k < n
        invariant
            j <= k <= n,
            n == s@.len(),
            r@ == s@.subrange(j as int, k as int),
        decreases n - k,
    {
        r.push(s[k]);
        k = k + 1;
        assert(r@ =~= s@.subrange(j as int, k as int));
    }
    r
}

} // verus!
