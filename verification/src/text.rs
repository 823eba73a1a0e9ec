//! Text as the library reads and writes it: splitting at a separator, lines, decimal numbers.
use vstd::prelude::*;

verus! {

/// The pieces of `s` between occurrences of `sep`, as `str::split` gives them: an empty text is one
/// empty piece, and a separator at either end leaves an empty piece there.
pub open spec fn split(s: Seq<char>, sep: char) -> Seq<Seq<char>>
    decreases s.len(),
{
    if s.len() == 0 {
        seq![Seq::<char>::empty()]
    } else {
        let p = split(s.drop_last(), sep);
        if s.last() == sep {
            p.push(Seq::<char>::empty())
        } else {
            p.update(p.len() - 1, p.last().push(s.last()))
        }
    }
}

/// A line without the carriage return that ends it, if one does.
pub open spec fn strip_cr(line: Seq<char>) -> Seq<char> {
    if line.len() > 0 && line.last() == '\r' {
        line.drop_last()
    } else {
        line
    }
}

/// The lines of `s`, as `str::lines` gives them: split at `\n`, a `\r` before it dropped, and no
/// empty line after a final line ending; a last line without a line ending keeps a `\r` it ends in.
pub open spec fn lines(s: Seq<char>) -> Seq<Seq<char>> {
    let p = split(s, '\n');
    let ended = p.drop_last().map_values(|l: Seq<char>| strip_cr(l));
    if p.last().len() == 0 {
        ended
    } else {
        ended.push(p.last())
    }
}

/// The value of a decimal digit; 10 for any other character.
pub open spec fn digit_value(c: char) -> nat {
    if c == '0' { 0 }
    else if c == '1' { 1 }
    else if c == '2' { 2 }
    else if c == '3' { 3 }
    else if c == '4' { 4 }
    else if c == '5' { 5 }
    else if c == '6' { 6 }
    else if c == '7' { 7 }
    else if c == '8' { 8 }
    else if c == '9' { 9 }
    else { 10 }
}

pub open spec fn is_digit(c: char) -> bool {
    digit_value(c) < 10
}

pub open spec fn all_digits(s: Seq<char>) -> bool {
    forall|i: int| 0 <= i < s.len() ==> is_digit(#[trigger] s[i])
}

/// The number the decimal digits `s` spell.
pub open spec fn digits_value(s: Seq<char>) -> nat
    decreases s.len(),
{
    if s.len() == 0 {
        0
    } else {
        digits_value(s.drop_last()) * 10 + digit_value(s.last())
    }
}

/// An unsigned number no larger than `max`, as `FromStr` reads one: an optional `+`, then at least
/// one decimal digit.
pub open spec fn parse_unsigned(s: Seq<char>, max: nat) -> Option<nat> {
    let d = if s.len() > 0 && s[0] == '+' { s.drop_first() } else { s };
    if d.len() > 0 && all_digits(d) && digits_value(d) <= max {
        Some(digits_value(d))
    } else {
        None
    }
}

pub open spec fn parse_u32(s: Seq<char>) -> Option<u32> {
    match parse_unsigned(s, u32::MAX as nat) {
        Some(v) => Some(v as u32),
        None => None,
    }
}

pub open spec fn parse_u64(s: Seq<char>) -> Option<u64> {
    match parse_unsigned(s, u64::MAX as nat) {
        Some(v) => Some(v as u64),
        None => None,
    }
}

/// A signed number in the range of `i32`, as `FromStr` reads one: an optional `+` or `-`, then at
/// least one decimal digit.
pub open spec fn parse_i32(s: Seq<char>) -> Option<i32> {
    let negative = s.len() > 0 && s[0] == '-';
    let d = if s.len() > 0 && (s[0] == '+' || s[0] == '-') { s.drop_first() } else { s };
    if d.len() > 0 && all_digits(d) {
        let v: int = if negative { -(digits_value(d) as int) } else { digits_value(d) as int };
        if i32::MIN <= v && v <= i32::MAX {
            Some(v as i32)
        } else {
            None
        }
    } else {
        None
    }
}

pub open spec fn digit_char(d: nat) -> char {
    if d == 0 { '0' }
    else if d == 1 { '1' }
    else if d == 2 { '2' }
    else if d == 3 { '3' }
    else if d == 4 { '4' }
    else if d == 5 { '5' }
    else if d == 6 { '6' }
    else if d == 7 { '7' }
    else if d == 8 { '8' }
    else { '9' }
}

/// `n` in decimal, with no leading zero.
pub open spec fn decimal(n: nat) -> Seq<char>
    decreases n,
{
    if n < 10 {
        seq![digit_char(n)]
    } else {
        decimal(n / 10).push(digit_char(n % 10))
    }
}

/// `n` in decimal, with a `-` before a negative number.
pub open spec fn signed_decimal(n: int) -> Seq<char> {
    if n < 0 {
        seq!['-'] + decimal((-n) as nat)
    } else {
        decimal(n as nat)
    }
}

pub proof fn lemma_split_len(s: Seq<char>, sep: char)
    ensures
        split(s, sep).len() >= 1,
    decreases s.len(),
{
    if s.len() > 0 {
        lemma_split_len(s.drop_last(), sep);
    }
}

/// Text without the separator is a single piece.
pub proof fn lemma_split_without_sep(s: Seq<char>, sep: char)
    requires
        !s.contains(sep),
    ensures
        split(s, sep) == seq![s],
    decreases s.len(),
{
    if s.len() > 0 {
        let t = s.drop_last();
        assert(!t.contains(sep)) by {
            if t.contains(sep) {
                let i = choose|i: int| 0 <= i < t.len() && t[i] == sep;
                assert(s[i] == sep);
            }
        }
        lemma_split_without_sep(t, sep);
        assert(s[s.len() - 1] != sep);
        assert(t.push(s.last()) =~= s);
        assert(split(t, sep).update(0, t.push(s.last())) =~= seq![s]);
    } else {
        assert(s =~= Seq::<char>::empty());
    }
}

/// Splitting `a + b` joins the last piece of `a` to the first piece of `b`.
pub proof fn lemma_split_concat(a: Seq<char>, b: Seq<char>, sep: char)
    ensures
        split(a + b, sep) == split(a, sep).drop_last() + seq![split(a, sep).last()
            + split(b, sep)[0]] + split(b, sep).skip(1),
    decreases b.len(),
{
    lemma_split_len(a, sep);
    lemma_split_len(b, sep);
    if b.len() == 0 {
        assert(a + b =~= a);
        assert(split(b, sep) =~= seq![Seq::<char>::empty()]);
        let p = split(a, sep);
        assert(p.last() + Seq::<char>::empty() =~= p.last());
        assert(p.drop_last() + seq![p.last()] =~= p);
        assert(split(b, sep).skip(1) =~= Seq::<Seq<char>>::empty());
        assert(p.drop_last() + seq![p.last()] + Seq::<Seq<char>>::empty() =~= p);
    } else {
        let b0 = b.drop_last();
        lemma_split_concat(a, b0, sep);
        lemma_split_len(b0, sep);
        assert((a + b).drop_last() =~= a + b0);
        assert((a + b).last() == b.last());
        let pa = split(a, sep);
        let pb0 = split(b0, sep);
        let pb = split(b, sep);
        if b.last() == sep {
            assert(pb == pb0.push(Seq::<char>::empty()));
            if pb0.len() == 1 {
                assert(pb[0] == pb0[0]);
                assert(pb.skip(1) =~= seq![Seq::<char>::empty()]);
                assert(pb0.skip(1) =~= Seq::<Seq<char>>::empty());
            } else {
                assert(pb[0] == pb0[0]);
                assert(pb.skip(1) =~= pb0.skip(1).push(Seq::<char>::empty()));
            }
            assert(split(a + b, sep) =~= pa.drop_last() + seq![pa.last() + pb[0]] + pb.skip(1));
        } else {
            assert(pb == pb0.update(pb0.len() - 1, pb0.last().push(b.last())));
            if pb0.len() == 1 {
                assert(pb[0] == pb0[0].push(b.last()));
                assert(pb.skip(1) =~= Seq::<Seq<char>>::empty());
                assert(pb0.skip(1) =~= Seq::<Seq<char>>::empty());
                assert((pa.last() + pb0[0]).push(b.last()) =~= pa.last() + pb[0]);
            } else {
                assert(pb[0] == pb0[0]);
                assert(pb.skip(1) =~= pb0.skip(1).update(
                    pb0.skip(1).len() - 1,
                    pb0.skip(1).last().push(b.last()),
                ));
            }
            assert(split(a + b, sep) =~= pa.drop_last() + seq![pa.last() + pb[0]] + pb.skip(1));
        }
    }
}

/// The value of a prefix of digits is no larger than that of the whole.
pub proof fn lemma_digits_value_prefix(s: Seq<char>, k: int)
    requires
        0 <= k <= s.len(),
    ensures
        digits_value(s.take(k)) <= digits_value(s),
    decreases s.len() - k,
{
    if k < s.len() {
        lemma_digits_value_prefix(s, k + 1);
        assert(s.take(k + 1).drop_last() =~= s.take(k));
    }
    assert(s.take(s.len() as int) =~= s);
}

pub proof fn lemma_decimal_digits(n: nat)
    ensures
        decimal(n).len() >= 1,
        all_digits(decimal(n)),
        digits_value(decimal(n)) == n,
        decimal(n)[0] != '+' && decimal(n)[0] != '-',
        !decimal(n).contains(' '),
        !decimal(n).contains('\n'),
        decimal(n).last() != '\r',
    decreases n,
{
    if n >= 10 {
        lemma_decimal_digits(n / 10);
        let d = decimal(n / 10);
        let e = decimal(n);
        assert(e == d.push(digit_char(n % 10)));
        assert(e.drop_last() =~= d);
        assert(e.last() == digit_char(n % 10));
        assert(n == (n / 10) * 10 + n % 10);
        assert(digits_value(e) == digits_value(d) * 10 + (n % 10));
        assert(all_digits(e)) by {
            assert forall|i: int| 0 <= i < e.len() implies is_digit(#[trigger] e[i]) by {
                if i < d.len() {
                    assert(e[i] == d[i]);
                }
            }
        }
        assert(!e.contains(' ')) by {
            if e.contains(' ') {
                let i = choose|i: int| 0 <= i < e.len() && e[i] == ' ';
                assert(is_digit(e[i]));
            }
        }
        assert(!e.contains('\n')) by {
            if e.contains('\n') {
                let i = choose|i: int| 0 <= i < e.len() && e[i] == '\n';
                assert(is_digit(e[i]));
            }
        }
    } else {
        let e = decimal(n);
        assert(e.drop_last() =~= Seq::<char>::empty());
        assert(digits_value(e) == digits_value(e.drop_last()) * 10 + digit_value(e.last()));
        assert(!e.contains(' ')) by {
            if e.contains(' ') {
                let i = choose|i: int| 0 <= i < e.len() && e[i] == ' ';
                assert(i == 0);
            }
        }
        assert(!e.contains('\n')) by {
            if e.contains('\n') {
                let i = choose|i: int| 0 <= i < e.len() && e[i] == '\n';
                assert(i == 0);
            }
        }
    }
}

/// What `decimal` writes, `parse_unsigned` reads back.
pub proof fn lemma_parse_decimal(n: nat, max: nat)
    requires
        n <= max,
    ensures
        parse_unsigned(decimal(n), max) == Some(n),
{
    lemma_decimal_digits(n);
}

/// What `signed_decimal` writes, `parse_i32` reads back.
pub proof fn lemma_parse_signed_decimal(n: i32)
    ensures
        parse_i32(signed_decimal(n as int)) == Some(n),
        !signed_decimal(n as int).contains(' '),
        !signed_decimal(n as int).contains('\n'),
        signed_decimal(n as int).len() >= 1,
        signed_decimal(n as int).last() != '\r',
{
    if n < 0 {
        let m = (-(n as int)) as nat;
        lemma_decimal_digits(m);
        let s = signed_decimal(n as int);
        assert(s.drop_first() =~= decimal(m));
        assert(s.last() == decimal(m).last());
        assert(!s.contains(' ')) by {
            if s.contains(' ') {
                let i = choose|i: int| 0 <= i < s.len() && s[i] == ' ';
                assert(i > 0);
                assert(s[i] == decimal(m)[i - 1]);
            }
        }
        assert(!s.contains('\n')) by {
            if s.contains('\n') {
                let i = choose|i: int| 0 <= i < s.len() && s[i] == '\n';
                assert(i > 0);
                assert(s[i] == decimal(m)[i - 1]);
            }
        }
    } else {
        lemma_decimal_digits(n as nat);
    }
}

/// The characters of `s`, one by one.
pub fn chars_of(s: &str) -> (r: Vec<char>)
    ensures
        r@ == s@,
{
    let mut r: Vec<char> = Vec::new();
    for c in it: s.chars()
        invariant
            r@ == it.seq().take(it.index() as int),
    {
        r.push(c);
    }
    r
}

/// The texts that vectors of characters hold.
pub open spec fn views(v: Seq<Vec<char>>) -> Seq<Seq<char>> {
    v.map_values(|x: Vec<char>| x@)
}

/// The pieces of `s` between occurrences of `sep`.
pub fn split_chars(s: &[char], sep: char) -> (r: Vec<Vec<char>>)
    ensures
        views(r@) == split(s@, sep),
{
    let mut done: Vec<Vec<char>> = Vec::new();
    let mut cur: Vec<char> = Vec::new();
    let mut i: usize = 0;
    while i < s.len()
        invariant
            i <= s.len(),
            views(done@).push(cur@) == split(s@.take(i as int), sep),
        decreases s.len() - i,
    {
        let c = s[i];
        proof {
            lemma_split_len(s@.take(i as int), sep);
            assert(s@.take(i as int + 1).drop_last() =~= s@.take(i as int));
        }
        if c == sep {
            let ghost before = views(done@);
            let piece = cur;
            done.push(piece);
            cur = Vec::new();
            proof {
                assert(views(done@) =~= before.push(piece@));
                assert(views(done@).push(cur@) =~= before.push(piece@).push(Seq::<char>::empty()));
            }
        } else {
            let ghost before = views(done@);
            let ghost old_cur = cur@;
            cur.push(c);
            proof {
                assert(views(done@).push(cur@) =~= before.push(old_cur).update(
                    before.len() as int,
                    old_cur.push(c),
                ));
            }
        }
        i += 1;
    }
    proof {
        assert(s@.take(s.len() as int) =~= s@);
    }
    let ghost before = views(done@);
    done.push(cur);
    proof {
        assert(views(done@) =~= before.push(cur@));
    }
    done
}

/// Whether the characters `s` are those of `lit`.
pub fn chars_eq(s: &[char], lit: &str) -> (r: bool)
    ensures
        r == (s@ == lit@),
{
    let l = chars_of(lit);
    if s.len() != l.len() {
        return false;
    }
    let mut i: usize = 0;
    while i < s.len()
        invariant
            i <= s.len(),
            s.len() == l.len(),
            l@ == lit@,
            forall|j: int| 0 <= j < i ==> s@[j] == l@[j],
        decreases s.len() - i,
    {
        if s[i] != l[i] {
            return false;
        }
        i += 1;
    }
    assert(s@ =~= l@);
    true
}

/// The value of a decimal digit; 10 for any other character.
fn digit_of(c: char) -> (r: u64)
    ensures
        r == digit_value(c),
{
    match c {
        '0' => 0,
        '1' => 1,
        '2' => 2,
        '3' => 3,
        '4' => 4,
        '5' => 5,
        '6' => 6,
        '7' => 7,
        '8' => 8,
        '9' => 9,
        _ => 10,
    }
}

/// Whether two texts are the same.
pub fn str_eq(a: &str, b: &str) -> (r: bool)
    ensures
        r == (a@ == b@),
{
    let chars = chars_of(a);
    chars_eq(chars.as_slice(), b)
}

/// The number the digits `s[from..]` spell, if they are all digits and it is no larger than `max`.
fn digits_up_to(s: &[char], from: usize, max: u64) -> (r: Option<u64>)
    requires
        from <= s.len(),
        max >= 10,
    ensures
        ({
            let d = s@.skip(from as int);
            match r {
                Some(v) => all_digits(d) && v == digits_value(d) && v <= max,
                None => !(all_digits(d) && digits_value(d) <= max),
            }
        }),
{
    let ghost d = s@.skip(from as int);
    let mut v: u64 = 0;
    let mut i: usize = from;
    while i < s.len()
        invariant
            from <= i <= s.len(),
            max >= 10,
            d == s@.skip(from as int),
            all_digits(d.take(i - from)),
            v == digits_value(d.take(i - from)),
            v <= max,
        decreases s.len() - i,
    {
        let c = s[i];
        let digit: u64 = digit_of(c);
        if digit == 10 {
            proof {
                assert(d[i - from] == c);
            }
            return None;
        }
        proof {
            assert(d.take(i - from + 1).drop_last() =~= d.take(i - from));
            assert(d.take(i - from + 1).last() == c);
        }
        if v > (max - digit) / 10 {
            proof {
                assert(v * 10 + digit > max) by (nonlinear_arith)
                    requires
                        v > (max - digit) / 10,
                        digit <= 9,
                        max >= 10,
                ;
                lemma_digits_value_prefix(d, i - from + 1);
            }
            return None;
        }
        proof {
            assert(v * 10 + digit <= max) by (nonlinear_arith)
                requires
                    v <= (max - digit) / 10,
                    digit <= 9,
                    max >= 10,
            ;
            assert forall|j: int| 0 <= j < d.take(i - from + 1).len() implies is_digit(
                #[trigger] d.take(i - from + 1)[j],
            ) by {
                if j < i - from {
                    assert(d.take(i - from + 1)[j] == d.take(i - from)[j]);
                } else {
                    assert(d.take(i - from + 1)[j] == d[i - from]);
                    assert(d[i - from] == s@[i as int]);
                }
            }
        }
        v = v * 10 + digit;
        i += 1;
    }
    proof {
        assert(d.take(i - from) =~= d);
    }
    Some(v)
}

/// An unsigned number no larger than `max`, as `FromStr` reads one.
pub fn parse_unsigned_chars(s: &[char], max: u64) -> (r: Option<u64>)
    requires
        max >= 10,
    ensures
        match r {
            Some(v) => parse_unsigned(s@, max as nat) == Some(v as nat),
            None => parse_unsigned(s@, max as nat).is_none(),
        },
{
    let from: usize = if s.len() > 0 && s[0] == '+' { 1 } else { 0 };
    proof {
        if from == 1 {
            assert(s@.skip(1) =~= s@.drop_first());
        } else {
            assert(s@.skip(0) =~= s@);
        }
    }
    if from == s.len() {
        return None;
    }
    digits_up_to(s, from, max)
}

/// A number in the range of `u32`, as `FromStr` reads one.
pub fn parse_u32_chars(s: &[char]) -> (r: Option<u32>)
    ensures
        r == parse_u32(s@),
{
    match parse_unsigned_chars(s, u32::MAX as u64) {
        Some(v) => Some(v as u32),
        None => None,
    }
}

/// A number in the range of `u64`, as `FromStr` reads one.
pub fn parse_u64_chars(s: &[char]) -> (r: Option<u64>)
    ensures
        r == parse_u64(s@),
{
    parse_unsigned_chars(s, u64::MAX)
}

/// A number in the range of `i32`, as `FromStr` reads one.
pub fn parse_i32_chars(s: &[char]) -> (r: Option<i32>)
    ensures
        r == parse_i32(s@),
{
    let signed = s.len() > 0 && (s[0] == '+' || s[0] == '-');
    let negative = s.len() > 0 && s[0] == '-';
    let from: usize = if signed { 1 } else { 0 };
    proof {
        if signed {
            assert(s@.skip(1) =~= s@.drop_first());
        } else {
            assert(s@.skip(0) =~= s@);
        }
    }
    if from == s.len() {
        return None;
    }
    match digits_up_to(s, from, 2147483648u64) {
        Some(v) => {
            if negative {
                Some((0i64 - v as i64) as i32)
            } else if v <= 2147483647 {
                Some(v as i32)
            } else {
                None
            }
        },
        None => {
            proof {
                let d = s@.skip(from as int);
                if all_digits(d) {
                    assert(digits_value(d) > 2147483648);
                }
            }
            None
        },
    }
}

/// The text of one decimal digit.
fn digit_str(d: u32) -> (s: &'static str)
    requires
        d < 10,
    ensures
        s@ == seq![digit_char(d as nat)],
{
    proof {
        reveal_strlit("0");
        reveal_strlit("1");
        reveal_strlit("2");
        reveal_strlit("3");
        reveal_strlit("4");
        reveal_strlit("5");
        reveal_strlit("6");
        reveal_strlit("7");
        reveal_strlit("8");
        reveal_strlit("9");
    }
    if d == 0 {
        "0"
    } else if d == 1 {
        "1"
    } else if d == 2 {
        "2"
    } else if d == 3 {
        "3"
    } else if d == 4 {
        "4"
    } else if d == 5 {
        "5"
    } else if d == 6 {
        "6"
    } else if d == 7 {
        "7"
    } else if d == 8 {
        "8"
    } else {
        "9"
    }
}

/// Appends `n` in decimal.
pub fn push_decimal(out: &mut String, n: u64)
    ensures
        final(out)@ == old(out)@ + decimal(n as nat),
    decreases n,
{
    if n >= 10 {
        push_decimal(out, n / 10);
    }
    let d = (n % 10) as u32;
    out.append(digit_str(d));
    proof {
        if n >= 10 {
            assert(old(out)@ + decimal(n as nat) =~= old(out)@ + decimal((n / 10) as nat) + seq![
                digit_char((n % 10) as nat),
            ]);
        } else {
            assert(n % 10 == n);
        }
    }
}

/// Appends `n` in decimal, with a `-` before a negative number.
pub fn push_signed_decimal(out: &mut String, n: i64)
    ensures
        final(out)@ == old(out)@ + signed_decimal(n as int),
{
    if n < 0 {
        proof {
            reveal_strlit("-");
        }
        out.append("-");
        let m: u64 = if n == i64::MIN {
            9223372036854775808u64
        } else {
            (0 - n) as u64
        };
        push_decimal(out, m);
        proof {
            assert(old(out)@ + signed_decimal(n as int) =~= old(out)@ + seq!['-'] + decimal(
                m as nat,
            ));
        }
    } else {
        push_decimal(out, n as u64);
    }
}

} // verus!
