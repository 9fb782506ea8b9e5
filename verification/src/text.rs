use vstd::prelude::*;

verus! {

/// Appends one character to a string (`String::push`).
/// Trusted: the view of the string grows by exactly that character.
#[verifier::external_body]
fn string_push(s: &mut String, c: char)
    ensures
        final(s)@ == old(s)@.push(c),
{
    s.push(c);
}

/// The characters of a string, in order.
pub fn chars_of(s: &str) -> (res: Vec<char>)
    ensures
        res@ == s@,
{
    let mut res: Vec<char> = Vec::new();
    for c in it: s.chars()
        invariant
            res@ == it.seq().take(it.index() as int),
    {
        res.push(c);
    }
    res
}

/// The string made of the given characters, in order.
pub fn string_of(v: &[char]) -> (res: String)
    ensures
        res@ == v@,
{
    let mut res = String::new();
    let mut i: usize = 0;
    while i < v.len()
        invariant
            i <= v.len(),
            res@ == v@.take(i as int),
        decreases v.len() - i,
    {
        string_push(&mut res, v[i]);
        assert(v@.take(i as int).push(v@[i as int]) =~= v@.take(i + 1));
        i += 1;
    }
    assert(v@.take(v.len() as int) =~= v@);
    res
}


/// The Unicode `White_Space` property, which `char::is_whitespace` tests.
pub open spec fn is_ws(c: char) -> bool {
    let u = c as u32;
    ||| 0x09 <= u <= 0x0D
    ||| u == 0x20
    ||| u == 0x85
    ||| u == 0xA0
    ||| u == 0x1680
    ||| 0x2000 <= u <= 0x200A
    ||| u == 0x2028
    ||| u == 0x2029
    ||| u == 0x202F
    ||| u == 0x205F
    ||| u == 0x3000
}

/// `s` with leading white space removed.
pub open spec fn trim_start(s: Seq<char>) -> Seq<char>
    decreases s.len(),
{
    if s.len() > 0 && is_ws(s[0]) {
        trim_start(s.drop_first())
    } else {
        s
    }
}

/// `s` with trailing white space removed.
pub open spec fn trim_end(s: Seq<char>) -> Seq<char>
    decreases s.len(),
{
    if s.len() > 0 && is_ws(s.last()) {
        trim_end(s.drop_last())
    } else {
        s
    }
}

/// `s` with leading and trailing white space removed (`str::trim`).
pub open spec fn trim(s: Seq<char>) -> Seq<char> {
    trim_end(trim_start(s))
}

pub fn is_whitespace(c: char) -> (b: bool)
    ensures
        b == is_ws(c),
{
    let u = c as u32;
    (0x09 <= u && u <= 0x0D) || u == 0x20 || u == 0x85 || u == 0xA0 || u == 0x1680 || (0x2000
        <= u && u <= 0x200A) || u == 0x2028 || u == 0x2029 || u == 0x202F || u == 0x205F || u
        == 0x3000
}

proof fn lemma_trim_start_skip(s: Seq<char>, k: int)
    requires
        0 <= k <= s.len(),
        forall|i: int| 0 <= i < k ==> is_ws(#[trigger] s[i]),
        k == s.len() || !is_ws(s[k]),
    ensures
        trim_start(s) == s.skip(k),
    decreases k,
{
    if k == 0 {
        assert(s.skip(0) =~= s);
    } else {
        let t = s.drop_first();
        assert forall|i: int| 0 <= i < k - 1 implies is_ws(#[trigger] t[i]) by {
            assert(t[i] == s[i + 1]);
        }
        if k - 1 < t.len() {
            assert(t[k - 1] == s[k]);
        }
        lemma_trim_start_skip(t, k - 1);
        assert(t.skip(k - 1) =~= s.skip(k));
    }
}

proof fn lemma_trim_end_take(s: Seq<char>, k: int)
    requires
        0 <= k <= s.len(),
        forall|i: int| k <= i < s.len() ==> is_ws(#[trigger] s[i]),
        k == 0 || !is_ws(s[k - 1]),
    ensures
        trim_end(s) == s.take(k),
    decreases s.len() - k,
{
    if k == s.len() {
        assert(s.take(k) =~= s);
    } else {
        let t = s.drop_last();
        assert forall|i: int| k <= i < t.len() implies is_ws(#[trigger] t[i]) by {
            assert(t[i] == s[i]);
        }
        if k > 0 {
            assert(t[k - 1] == s[k - 1]);
        }
        lemma_trim_end_take(t, k);
        assert(t.take(k) =~= s.take(k));
    }
}

/// `str::trim` on a sequence of characters.
pub fn trim_chars(s: &[char]) -> (res: Vec<char>)
    ensures
        res@ == trim(s@),
{
    let n = s.len();
    let mut start: usize = 0;
    while start < n && is_whitespace(s[start])
        invariant
            n == s@.len(),
            start <= n,
            forall|i: int| 0 <= i < start ==> is_ws(#[trigger] s@[i]),
        decreases n - start,
    {
        start += 1;
    }
    proof {
        lemma_trim_start_skip(s@, start as int);
    }
    let ghost t = s@.skip(start as int);
    let mut end: usize = n;
    while end > start && is_whitespace(s[end - 1])
        invariant
            n == s@.len(),
            start <= end <= n,
            t == s@.skip(start as int),
            forall|i: int| end <= i < n ==> is_ws(#[trigger] s@[i]),
        decreases end,
    {
        end -= 1;
    }
    proof {
        assert forall|i: int| end - start <= i < t.len() implies is_ws(#[trigger] t[i]) by {
            assert(t[i] == s@[i + start]);
        }
        if end > start {
            assert(t[end - start - 1] == s@[end - 1]);
        }
        lemma_trim_end_take(t, end - start);
    }
    let mut res: Vec<char> = Vec::new();
    let mut i: usize = start;
    while i < end
        invariant
            start <= i <= end <= n,
            n == s@.len(),
            res@ == s@.subrange(start as int, i as int),
        decreases end - i,
    {
        res.push(s[i]);
        i += 1;
    }
    assert(res@ =~= t.take(end - start));
    res
}


/// `s` without one trailing carriage return, if it has one.
pub open spec fn strip_cr(s: Seq<char>) -> Seq<char> {
    if s.len() > 0 && s.last() == '\r' {
        s.drop_last()
    } else {
        s
    }
}

/// The index of the first line feed in `s`, or `s.len()` when there is none.
pub open spec fn line_end(s: Seq<char>) -> nat
    decreases s.len(),
{
    if s.len() == 0 {
        0
    } else if s[0] == '\n' {
        0
    } else {
        1 + line_end(s.drop_first())
    }
}

/// The lines of `s` as `str::lines` yields them: split at each line feed, a carriage
/// return directly before a line feed dropped, and no empty line after a final line feed.
pub open spec fn lines(s: Seq<char>) -> Seq<Seq<char>>
    decreases s.len(),
{
    if s.len() == 0 {
        seq![]
    } else {
        let e = line_end(s);
        if e >= s.len() {
            seq![s]
        } else {
            seq![strip_cr(s.take(e as int))] + lines(s.skip(e + 1int))
        }
    }
}

proof fn lemma_line_end(s: Seq<char>, k: int)
    requires
        0 <= k <= s.len(),
        forall|i: int| 0 <= i < k ==> #[trigger] s[i] != '\n',
        k == s.len() || s[k] == '\n',
    ensures
        line_end(s) == k,
    decreases k,
{
    if k > 0 {
        let t = s.drop_first();
        assert forall|i: int| 0 <= i < k - 1 implies #[trigger] t[i] != '\n' by {
            assert(t[i] == s[i + 1]);
        }
        if k < s.len() {
            assert(t[k - 1] == s[k]);
        }
        assert(s[0] != '\n');
        lemma_line_end(t, k - 1);
    }
}

fn strip_cr_vec(v: Vec<char>) -> (res: Vec<char>)
    ensures
        res@ == strip_cr(v@),
{
    let mut v = v;
    if v.len() > 0 && v[v.len() - 1] == '\r' {
        v.pop();
    }
    v
}

/// `str::lines` on a sequence of characters.
pub fn split_lines(s: &[char]) -> (res: Vec<Vec<char>>)
    ensures
        res@.map_values(|l: Vec<char>| l@) == lines(s@),
{
    let n = s.len();
    let mut res: Vec<Vec<char>> = Vec::new();
    let mut pos: usize = 0;
    assert(s@.skip(0) =~= s@);
    assert(res@.map_values(|l: Vec<char>| l@) + lines(s@) =~= lines(s@));
    while pos < n
        invariant
            pos <= n,
            n == s@.len(),
            lines(s@) == res@.map_values(|l: Vec<char>| l@) + lines(s@.skip(pos as int)),
        decreases n - pos,
    {
        let ghost rest = s@.skip(pos as int);
        let mut cur: Vec<char> = Vec::new();
        let mut j: usize = pos;
        while j < n && s[j] != '\n'
            invariant
                pos <= j <= n,
                n == s@.len(),
                rest == s@.skip(pos as int),
                cur@ == s@.subrange(pos as int, j as int),
                forall|i: int| pos <= i < j ==> #[trigger] s@[i] != '\n',
            decreases n - j,
        {
            cur.push(s[j]);
            j += 1;
        }
        proof {
            assert forall|i: int| 0 <= i < j - pos implies #[trigger] rest[i] != '\n' by {
                assert(rest[i] == s@[i + pos]);
            }
            if j < n {
                assert(rest[j - pos] == s@[j as int]);
            }
            lemma_line_end(rest, j - pos);
            assert(rest.take(j - pos) =~= cur@);
        }
        let ghost before = res@.map_values(|l: Vec<char>| l@);
        if j >= n {
            res.push(cur);
            proof {
                assert(rest =~= cur@);
                assert(res@.map_values(|l: Vec<char>| l@) =~= before.push(cur@));
                assert(s@.skip(n as int) =~= Seq::<char>::empty());
            }
            pos = n;
        } else {
            let line = strip_cr_vec(cur);
            res.push(line);
            proof {
                assert(rest.skip(j - pos + 1) =~= s@.skip(j + 1));
                assert(res@.map_values(|l: Vec<char>| l@) =~= before.push(line@));
            }
            pos = j + 1;
        }
    }
    proof {
        assert(s@.skip(pos as int) =~= Seq::<char>::empty());
        assert(lines(s@.skip(pos as int)) =~= Seq::<Seq<char>>::empty());
        assert(res@.map_values(|l: Vec<char>| l@) + Seq::<Seq<char>>::empty() =~= res@.map_values(|l: Vec<char>| l@));
    }
    res
}


/// `s` holds no line feed.
pub open spec fn no_newline(s: Seq<char>) -> bool {
    forall|i: int| 0 <= i < s.len() ==> #[trigger] s[i] != '\n'
}

pub proof fn lemma_line_end_before(s: Seq<char>, k: int)
    requires
        0 <= k < s.len(),
        s[k] == '\n',
    ensures
        line_end(s) <= k,
    decreases k,
{
    if k > 0 && s[0] != '\n' {
        assert(s.drop_first()[k - 1] == s[k]);
        lemma_line_end_before(s.drop_first(), k - 1);
    }
}

/// The last line of a text that ends in a line `b` without a line feed is `b`.
pub proof fn lemma_lines_last(s: Seq<char>, b: Seq<char>)
    requires
        b.len() > 0,
        no_newline(b),
        s.len() >= b.len(),
        s.skip(s.len() - b.len()) == b,
        s.len() == b.len() || s[s.len() - b.len() - 1] == '\n',
    ensures
        lines(s).len() >= 1,
        lines(s).last() == b,
    decreases s.len(),
{
    if s.len() == b.len() {
        assert(s =~= b);
        lemma_line_end(s, s.len() as int);
    } else {
        let k = s.len() - b.len() - 1;
        lemma_line_end_before(s, k);
        let e = line_end(s);
        let t = s.skip(e + 1int);
        assert(t.skip(t.len() - b.len()) =~= s.skip(s.len() - b.len()));
        if t.len() > b.len() {
            assert(t[t.len() - b.len() - 1] == s[k]);
        }
        lemma_lines_last(t, b);
    }
}

/// The first line of `a`, a line feed and `rest` is `a` (a carriage return at its end dropped).
pub proof fn lemma_lines_first(a: Seq<char>, rest: Seq<char>)
    requires
        no_newline(a),
    ensures
        lines(a + seq!['\n'] + rest) == seq![strip_cr(a)] + lines(rest),
{
    let s = a + seq!['\n'] + rest;
    assert forall|i: int| 0 <= i < a.len() implies #[trigger] s[i] != '\n' by {
        assert(s[i] == a[i]);
    }
    lemma_line_end(s, a.len() as int);
    assert(s.take(a.len() as int) =~= a);
    assert(s.skip(a.len() + 1int) =~= rest);
}

/// A text whose first and last characters are not white space is its own trim.
pub proof fn lemma_trim_unchanged(s: Seq<char>)
    requires
        s.len() > 0,
        !is_ws(s[0]),
        !is_ws(s.last()),
    ensures
        trim(s) == s,
{
}


/// The character of a decimal digit.
pub open spec fn digit_char(d: nat) -> char {
    (d + 48) as char
}

/// The decimal digits of `n`, most significant first, without leading zeros.
pub open spec fn nat_decimal(n: nat) -> Seq<char>
    decreases n,
{
    if n < 10 {
        seq![digit_char(n)]
    } else {
        nat_decimal(n / 10).push(digit_char(n % 10))
    }
}

/// How `Display` writes an integer: a minus sign for a negative one, then its digits.
pub open spec fn int_decimal(i: int) -> Seq<char> {
    if i < 0 {
        seq!['-'] + nat_decimal((-i) as nat)
    } else {
        nat_decimal(i as nat)
    }
}

fn digit(d: u64) -> (c: char)
    requires
        d < 10,
    ensures
        c == digit_char(d as nat),
{
    let b: u8 = 48u8 + (d as u8);
    b as char
}

/// The decimal digits of `n` (how `format!("{}", n)` writes it).
pub fn u64_decimal(n: u64) -> (res: Vec<char>)
    ensures
        res@ == nat_decimal(n as nat),
{
    let mut m: u64 = n;
    let mut rev: Vec<char> = Vec::new();
    let ghost mut tail: Seq<char> = Seq::empty();
    while m >= 10
        invariant
            nat_decimal(n as nat) == nat_decimal(m as nat) + tail,
            tail == rev@.reverse(),
        decreases m,
    {
        let d = digit(m % 10);
        proof {
            assert(nat_decimal(m as nat) == nat_decimal((m / 10) as nat).push(d));
            assert(nat_decimal((m / 10) as nat).push(d) + tail =~= nat_decimal((m / 10) as nat) + (
            seq![d] + tail));
            assert(rev@.push(d).reverse() =~= seq![d] + rev@.reverse());
            tail = seq![d] + tail;
        }
        rev.push(d);
        m = m / 10;
    }
    let mut res: Vec<char> = Vec::new();
    res.push(digit(m));
    let mut i: usize = rev.len();
    while i > 0
        invariant
            i <= rev.len(),
            tail == rev@.reverse(),
            res@ == seq![digit_char(m as nat)] + tail.take(rev.len() - i),
        decreases i,
    {
        i -= 1;
        res.push(rev[i]);
        proof {
            assert(tail[rev.len() - i - 1] == rev@[i as int]);
            assert(tail.take(rev.len() - i - 1).push(rev@[i as int]) =~= tail.take(rev.len() - i));
        }
    }
    assert(tail.take(rev.len() as int) =~= tail);
    res
}

/// The decimal text of `i` (how `format!("{}", i)` writes it).
pub fn i64_decimal(i: i64) -> (res: Vec<char>)
    ensures
        res@ == int_decimal(i as int),
{
    if i < 0 {
        let m: u64 = (-(i as i128)) as u64;
        let digits = u64_decimal(m);
        let mut res: Vec<char> = Vec::new();
        res.push('-');
        let mut k: usize = 0;
        while k < digits.len()
            invariant
                k <= digits.len(),
                res@ == seq!['-'] + digits@.take(k as int),
            decreases digits.len() - k,
        {
            res.push(digits[k]);
            assert(digits@.take(k as int).push(digits@[k as int]) =~= digits@.take(k + 1));
            k += 1;
        }
        assert(digits@.take(digits.len() as int) =~= digits@);
        res
    } else {
        u64_decimal(i as u64)
    }
}


pub proof fn lemma_digit_char_injective(a: nat, b: nat)
    requires
        a < 10,
        b < 10,
        digit_char(a) == digit_char(b),
    ensures
        a == b,
{
    assert(digit_char(a) as u32 == a + 48);
    assert(digit_char(b) as u32 == b + 48);
}

pub proof fn lemma_nat_decimal_shape(n: nat)
    ensures
        nat_decimal(n).len() >= 1,
        n >= 10 ==> nat_decimal(n).len() >= 2,
        forall|i: int|
            0 <= i < nat_decimal(n).len() ==> 48 <= #[trigger] (nat_decimal(n)[i] as u32) <= 57,
    decreases n,
{
    assert(n % 10 < 10);
    assert(digit_char(n % 10) as u32 == n % 10 + 48);
    if n >= 10 {
        lemma_nat_decimal_shape(n / 10);
        let p = nat_decimal(n / 10);
        assert forall|i: int|
            0 <= i < nat_decimal(n).len() implies 48 <= #[trigger] (nat_decimal(n)[i] as u32)
            <= 57 by {
            if i < p.len() {
                assert(nat_decimal(n)[i] == p[i]);
            }
        }
    } else {
        assert(digit_char(n) as u32 == n + 48);
    }
}

/// Different numbers have different decimal digits.
pub proof fn lemma_nat_decimal_injective(a: nat, b: nat)
    requires
        nat_decimal(a) == nat_decimal(b),
    ensures
        a == b,
    decreases a,
{
    lemma_nat_decimal_shape(a);
    lemma_nat_decimal_shape(b);
    if a < 10 && b < 10 {
        assert(nat_decimal(a)[0] == digit_char(a));
        assert(nat_decimal(b)[0] == digit_char(b));
        lemma_digit_char_injective(a, b);
    } else if a >= 10 && b >= 10 {
        let sa = nat_decimal(a);
        let sb = nat_decimal(b);
        assert(sa.last() == digit_char(a % 10));
        assert(sb.last() == digit_char(b % 10));
        lemma_digit_char_injective(a % 10, b % 10);
        assert(sa.drop_last() =~= nat_decimal(a / 10));
        assert(sb.drop_last() =~= nat_decimal(b / 10));
        lemma_nat_decimal_injective(a / 10, b / 10);
    } else {
        assert(nat_decimal(a).len() != nat_decimal(b).len());
    }
}

/// Different integers have different decimal texts.
pub proof fn lemma_int_decimal_injective(a: int, b: int)
    requires
        int_decimal(a) == int_decimal(b),
    ensures
        a == b,
{
    if a < 0 && b < 0 {
        assert(int_decimal(a).drop_first() =~= nat_decimal((-a) as nat));
        assert(int_decimal(b).drop_first() =~= nat_decimal((-b) as nat));
        lemma_nat_decimal_injective((-a) as nat, (-b) as nat);
    } else if a >= 0 && b >= 0 {
        lemma_nat_decimal_injective(a as nat, b as nat);
    } else if a < 0 {
        lemma_nat_decimal_shape(b as nat);
        assert(int_decimal(a)[0] == '-');
        assert(48 <= (nat_decimal(b as nat)[0] as u32) <= 57);
    } else {
        lemma_nat_decimal_shape(a as nat);
        assert(int_decimal(b)[0] == '-');
        assert(48 <= (nat_decimal(a as nat)[0] as u32) <= 57);
    }
}


/// `pat` occurs in `s` at index `i`.
pub open spec fn occurs_at(s: Seq<char>, pat: Seq<char>, i: int) -> bool {
    0 <= i && i + pat.len() <= s.len() && s.subrange(i, i + pat.len()) == pat
}

/// `pat` occurs somewhere in `s` (`str::contains`).
pub open spec fn contains(s: Seq<char>, pat: Seq<char>) -> bool {
    exists|i: int| occurs_at(s, pat, i)
}

/// Every occurrence of `pat` in `s`, taken from the left without overlap, replaced by `rep`
/// (`str::replace` with a non-empty pattern).
pub open spec fn replace_all(s: Seq<char>, pat: Seq<char>, rep: Seq<char>) -> Seq<char>
    recommends
        pat.len() > 0,
    decreases s.len(),
{
    if s.len() == 0 || pat.len() == 0 {
        s
    } else if occurs_at(s, pat, 0) {
        rep + replace_all(s.skip(pat.len() as int), pat, rep)
    } else {
        seq![s[0]] + replace_all(s.drop_first(), pat, rep)
    }
}

fn occurs_at_exec(s: &[char], pat: &[char], i: usize) -> (b: bool)
    ensures
        b == occurs_at(s@, pat@, i as int),
{
    if i > s.len() || pat.len() > s.len() - i {
        return false;
    }
    let mut k: usize = 0;
    while k < pat.len()
        invariant
            k <= pat.len(),
            i + pat.len() <= s.len(),
            forall|j: int| 0 <= j < k ==> s@[i + j] == pat@[j],
        decreases pat.len() - k,
    {
        if s[i + k] != pat[k] {
            assert(s@.subrange(i as int, i + pat.len())[k as int] != pat@[k as int]);
            return false;
        }
        k += 1;
    }
    assert(s@.subrange(i as int, i + pat.len()) =~= pat@);
    true
}

/// Whether `pat` occurs in `s`.
pub fn contains_chars(s: &[char], pat: &[char]) -> (b: bool)
    ensures
        b == contains(s@, pat@),
{
    let mut i: usize = 0;
    while i < s.len()
        invariant
            i <= s.len(),
            forall|j: int| 0 <= j < i ==> !occurs_at(s@, pat@, j),
        decreases s.len() - i,
    {
        if occurs_at_exec(s, pat, i) {
            return true;
        }
        i += 1;
    }
    if occurs_at_exec(s, pat, s.len()) {
        return true;
    }
    assert forall|j: int| !occurs_at(s@, pat@, j) by {
        if 0 <= j < s.len() {
            assert(!occurs_at(s@, pat@, j));
        }
    }
    false
}

/// `s` with each occurrence of `pat` replaced by `rep`, as `str::replace` does it.
pub fn replace_chars(s: &[char], pat: &[char], rep: &[char]) -> (res: Vec<char>)
    requires
        pat@.len() > 0,
    ensures
        res@ == replace_all(s@, pat@, rep@),
{
    let mut res: Vec<char> = Vec::new();
    let mut i: usize = 0;
    assert(s@.skip(0) =~= s@);
    while i < s.len()
        invariant
            i <= s.len(),
            pat@.len() > 0,
            replace_all(s@, pat@, rep@) == res@ + replace_all(s@.skip(i as int), pat@, rep@),
        decreases s.len() - i,
    {
        let ghost rest = s@.skip(i as int);
        if occurs_at_exec(s, pat, i) {
            proof {
                assert(rest.subrange(0, pat@.len() as int) =~= s@.subrange(i as int, i + pat@.len()));
                assert(rest.skip(pat@.len() as int) =~= s@.skip(i + pat@.len()));
                assert(res@ + (rep@ + replace_all(rest.skip(pat@.len() as int), pat@, rep@)) =~= (res@
                    + rep@) + replace_all(rest.skip(pat@.len() as int), pat@, rep@));
            }
            let mut k: usize = 0;
            let ghost base = res@;
            while k < rep.len()
                invariant
                    k <= rep.len(),
                    res@ == base + rep@.take(k as int),
                decreases rep.len() - k,
            {
                res.push(rep[k]);
                assert(rep@.take(k as int).push(rep@[k as int]) =~= rep@.take(k + 1));
                k += 1;
            }
            assert(rep@.take(rep.len() as int) =~= rep@);
            i = i + pat.len();
        } else {
            proof {
                if !occurs_at(rest, pat@, 0) {
                } else {
                    assert(rest.subrange(0, pat@.len() as int) =~= s@.subrange(i as int, i + pat@.len()));
                }
                assert(rest.drop_first() =~= s@.skip(i + 1));
                assert(res@ + (seq![s@[i as int]] + replace_all(rest.drop_first(), pat@, rep@)) =~= res@.push(
                    s@[i as int],
                ) + replace_all(rest.drop_first(), pat@, rep@));
            }
            res.push(s[i]);
            i += 1;
        }
    }
    proof {
        assert(s@.skip(i as int) =~= Seq::<char>::empty());
        assert(res@ + Seq::<char>::empty() =~= res@);
    }
    res
}


/// Appends the characters of `s` to `v`.
pub fn push_all(v: &mut Vec<char>, s: &[char])
    ensures
        final(v)@ == old(v)@ + s@,
{
    let ghost base = v@;
    let mut k: usize = 0;
    while k < s.len()
        invariant
            k <= s.len(),
            v@ == base + s@.take(k as int),
        decreases s.len() - k,
    {
        v.push(s[k]);
        assert(s@.take(k as int).push(s@[k as int]) =~= s@.take(k + 1));
        k += 1;
    }
    assert(s@.take(s.len() as int) =~= s@);
}

/// `a` comes before `b` in the order of `str`'s `Ord`: compared character by character by
/// code point, a proper prefix first.
pub open spec fn lex_lt(a: Seq<char>, b: Seq<char>) -> bool
    decreases a.len(),
{
    if a.len() == 0 {
        b.len() > 0
    } else if b.len() == 0 {
        false
    } else if a[0] != b[0] {
        (a[0] as int) < (b[0] as int)
    } else {
        lex_lt(a.drop_first(), b.drop_first())
    }
}

pub proof fn lemma_lex_irreflexive(a: Seq<char>)
    ensures
        !lex_lt(a, a),
    decreases a.len(),
{
    if a.len() > 0 {
        lemma_lex_irreflexive(a.drop_first());
    }
}

/// Two texts that neither comes before the other are equal.
pub proof fn lemma_lex_total(a: Seq<char>, b: Seq<char>)
    ensures
        lex_lt(a, b) || lex_lt(b, a) || a == b,
        !(lex_lt(a, b) && lex_lt(b, a)),
    decreases a.len(),
{
    if a.len() > 0 && b.len() > 0 {
        if a[0] == b[0] {
            lemma_lex_total(a.drop_first(), b.drop_first());
            if a.drop_first() == b.drop_first() {
                assert(a =~= seq![a[0]] + a.drop_first());
                assert(b =~= seq![b[0]] + b.drop_first());
            }
        } else {
            assert((a[0] as int) != (b[0] as int));
        }
    } else if a.len() == 0 && b.len() == 0 {
        assert(a =~= b);
    }
}

pub proof fn lemma_lex_transitive(a: Seq<char>, b: Seq<char>, c: Seq<char>)
    requires
        lex_lt(a, b),
        lex_lt(b, c),
    ensures
        lex_lt(a, c),
    decreases a.len(),
{
    if a.len() > 0 && b.len() > 0 && c.len() > 0 && a[0] == b[0] && b[0] == c[0] {
        lemma_lex_transitive(a.drop_first(), b.drop_first(), c.drop_first());
    }
}

/// Whether `a` comes before `b` in the order of `str`.
pub fn lex_less(a: &[char], b: &[char]) -> (res: bool)
    ensures
        res == lex_lt(a@, b@),
{
    let mut i: usize = 0;
    assert(a@.skip(0) =~= a@);
    assert(b@.skip(0) =~= b@);
    while i < a.len() && i < b.len() && a[i] == b[i]
        invariant
            i <= a.len(),
            i <= b.len(),
            lex_lt(a@, b@) == lex_lt(a@.skip(i as int), b@.skip(i as int)),
        decreases a.len() - i,
    {
        proof {
            assert(a@.skip(0) =~= a@);
            let sa = a@.skip(i as int);
            let sb = b@.skip(i as int);
            assert(sa.drop_first() =~= a@.skip(i + 1));
            assert(sb.drop_first() =~= b@.skip(i + 1));
        }
        i += 1;
    }
    proof {
        let sa = a@.skip(i as int);
        let sb = b@.skip(i as int);
        if i < a.len() && i < b.len() {
            assert(sa[0] == a@[i as int] && sb[0] == b@[i as int]);
        }
    }
    if i == a.len() {
        i < b.len()
    } else if i == b.len() {
        false
    } else {
        a[i] < b[i]
    }
}


/// `c` is one of `0` to `9`.
pub open spec fn is_digit(c: char) -> bool {
    48 <= (c as u32) <= 57
}

/// The number that a sequence of decimal digits writes.
pub open spec fn digits_value(s: Seq<char>) -> nat
    decreases s.len(),
{
    if s.len() == 0 {
        0
    } else {
        digits_value(s.drop_last()) * 10 + ((s.last() as u32 - 48) as nat)
    }
}

/// `s` without a leading `+`, if it has one.
pub open spec fn unsigned_digits(s: Seq<char>) -> Seq<char> {
    if s.len() > 0 && s[0] == '+' {
        s.drop_first()
    } else {
        s
    }
}

/// Every character of `s` is a digit.
pub open spec fn all_digits(s: Seq<char>) -> bool {
    forall|i: int| 0 <= i < s.len() ==> is_digit(#[trigger] s[i])
}

/// What `u64::from_str` gives: an optional `+`, then at least one digit and nothing else,
/// with a value that fits in 64 bits.
pub open spec fn parse_u64_spec(s: Seq<char>) -> Option<u64> {
    let d = unsigned_digits(s);
    if d.len() > 0 && all_digits(d) && digits_value(d) <= u64::MAX {
        Some(digits_value(d) as u64)
    } else {
        None
    }
}

proof fn lemma_digits_value_grows(s: Seq<char>, k: int)
    requires
        0 <= k <= s.len(),
        forall|i: int| 0 <= i < s.len() ==> is_digit(#[trigger] s[i]),
    ensures
        digits_value(s.take(k)) <= digits_value(s),
    decreases s.len() - k,
{
    if k < s.len() {
        let t = s.drop_last();
        assert forall|i: int| 0 <= i < t.len() implies is_digit(#[trigger] t[i]) by {
            assert(t[i] == s[i]);
        }
        assert(is_digit(s[s.len() - 1]));
        if k < s.len() {
            lemma_digits_value_grows(t, k);
            assert(t.take(k) =~= s.take(k));
        }
    } else {
        assert(s.take(k) =~= s);
    }
}

/// Reads a decimal number as `u64::from_str` does.
pub fn parse_u64(s: &str) -> (res: Option<u64>)
    ensures
        res == parse_u64_spec(s@),
{
    let c = chars_of(s);
    let start: usize = if c.len() > 0 && c[0] == '+' {
        1
    } else {
        0
    };
    let ghost d = unsigned_digits(s@);
    assert(d =~= c@.skip(start as int));
    if start == c.len() {
        return None;
    }
    let mut v: u64 = 0;
    let mut i: usize = start;
    assert(d.take(0) =~= Seq::<char>::empty());
    while i < c.len()
        invariant
            start <= i <= c@.len(),
            d == c@.skip(start as int),
            d == unsigned_digits(s@),
            d.len() > 0,
            v == digits_value(d.take(i - start)),
            forall|k: int| 0 <= k < i - start ==> is_digit(#[trigger] d[k]),
        decreases c@.len() - i,
    {
        let ch = c[i];
        assert(d[i - start] == ch);
        let code = ch as u32;
        if code < 48 || code > 57 {
            assert(!is_digit(d[i - start]));
            assert(!all_digits(d));
            return None;
        }
        let digit: u64 = (code - 48) as u64;
        proof {
            let t = d.take(i - start + 1);
            assert(t.drop_last() =~= d.take(i - start));
            assert(t.last() == ch);
        }
        match v.checked_mul(10) {
            Some(m) => match m.checked_add(digit) {
                Some(n) => {
                    v = n;
                },
                None => {
                    proof {
                        assert(digits_value(d.take(i - start + 1)) == v * 10 + digit);
                        self::lemma_overflow_none(d, i - start + 1);
                    }
                    return None;
                },
            },
            None => {
                proof {
                    self::lemma_overflow_none(d, i - start + 1);
                }
                return None;
            },
        }
        i += 1;
    }
    assert(d.take(i - start) =~= d);
    Some(v)
}

proof fn lemma_overflow_none(d: Seq<char>, k: int)
    requires
        0 < k <= d.len(),
        digits_value(d.take(k)) > u64::MAX,
    ensures
        all_digits(d) ==> digits_value(d) > u64::MAX,
{
    if all_digits(d) {
        lemma_digits_value_grows(d, k);
    }
}


proof fn lemma_decimal_digits(n: nat)
    ensures
        all_digits(nat_decimal(n)),
        digits_value(nat_decimal(n)) == n,
    decreases n,
{
    lemma_nat_decimal_shape(n);
    let s = nat_decimal(n);
    assert forall|i: int| 0 <= i < s.len() implies is_digit(#[trigger] s[i]) by {
        assert(48 <= (s[i] as u32) <= 57);
    }
    assert(digit_char(n % 10) as u32 == n % 10 + 48);
    if n >= 10 {
        lemma_decimal_digits(n / 10);
        assert(s.drop_last() =~= nat_decimal(n / 10));
        assert(s.last() == digit_char(n % 10));
        assert(digits_value(s) == digits_value(nat_decimal(n / 10)) * 10 + ((s.last() as u32 - 48) as nat));
        assert((n / 10) * 10 + n % 10 == n);
        assert(((s.last() as u32 - 48) as nat) == n % 10);
        assert(digits_value(s) == n);
    } else {
        assert(digit_char(n) as u32 == n + 48);
        assert(s.drop_last() =~= Seq::<char>::empty());
        assert(s.last() == digit_char(n));
        assert(digits_value(Seq::<char>::empty()) == 0);
        assert(digits_value(s) == n);
    }
}

/// Reading back the decimal text of a 64-bit number gives that number.
pub proof fn law_decimal_reads_back(n: u64)
    ensures
        parse_u64_spec(nat_decimal(n as nat)) == Some(n),
{
    lemma_decimal_digits(n as nat);
    lemma_nat_decimal_shape(n as nat);
    let s = nat_decimal(n as nat);
    assert((s[0] as u32) != ('+' as u32));
    assert(unsigned_digits(s) == s);
}

/// The usual blanks are white space, and no ASCII letter or digit is.
pub proof fn law_white_space(c: char)
    ensures
        is_ws(' ') && is_ws('\t') && is_ws('\n') && is_ws('\r'),
        ('a' <= c <= 'z' || 'A' <= c <= 'Z' || '0' <= c <= '9') ==> !is_ws(c),
{
}

proof fn lemma_trim_start_index(s: Seq<char>) -> (i: int)
    ensures
        0 <= i <= s.len(),
        trim_start(s) == s.skip(i),
        forall|k: int| 0 <= k < i ==> is_ws(#[trigger] s[k]),
        i == s.len() || !is_ws(s[i]),
    decreases s.len(),
{
    if s.len() > 0 && is_ws(s[0]) {
        let t = s.drop_first();
        let j = lemma_trim_start_index(t);
        assert(t.skip(j) =~= s.skip(j + 1));
        assert forall|k: int| 0 <= k < j + 1 implies is_ws(#[trigger] s[k]) by {
            if k > 0 {
                assert(s[k] == t[k - 1]);
            }
        }
        if j + 1 < s.len() {
            assert(s[j + 1] == t[j]);
        }
        j + 1
    } else {
        assert(s.skip(0) =~= s);
        0
    }
}

proof fn lemma_trim_end_index(s: Seq<char>) -> (j: int)
    ensures
        0 <= j <= s.len(),
        trim_end(s) == s.take(j),
        forall|k: int| j <= k < s.len() ==> is_ws(#[trigger] s[k]),
        j == 0 || !is_ws(s[j - 1]),
    decreases s.len(),
{
    if s.len() > 0 && is_ws(s.last()) {
        let t = s.drop_last();
        let j = lemma_trim_end_index(t);
        assert(t.take(j) =~= s.take(j));
        assert forall|k: int| j <= k < s.len() implies is_ws(#[trigger] s[k]) by {
            if k < s.len() - 1 {
                assert(s[k] == t[k]);
            }
        }
        if j > 0 {
            assert(s[j - 1] == t[j - 1]);
        }
        j
    } else {
        assert(s.take(s.len() as int) =~= s);
        s.len() as int
    }
}

/// Trimming removes white space at both ends and nothing else: the result is a stretch of
/// the text with only white space before and after it, and it neither starts nor ends with
/// white space.
pub proof fn law_trim_removes_only_outer_white_space(s: Seq<char>)
    ensures
        exists|i: int, j: int|
            0 <= i <= j <= s.len() && trim(s) == s.subrange(i, j) && (forall|k: int| 0 <= k < i ==> is_ws(#[trigger] s[k]))
                && (forall|k: int| j <= k < s.len() ==> is_ws(#[trigger] s[k])),
        trim(s).len() > 0 ==> !is_ws(trim(s)[0]) && !is_ws(trim(s).last()),
{
    let i = lemma_trim_start_index(s);
    let t = s.skip(i);
    let j = lemma_trim_end_index(t);
    assert(trim(s) == t.take(j));
    assert(t.take(j) =~= s.subrange(i, i + j));
    assert forall|k: int| i + j <= k < s.len() implies is_ws(#[trigger] s[k]) by {
        assert(s[k] == t[k - i]);
    }
    if j > 0 {
        assert(trim(s)[0] == t[0]);
        assert(t[0] == s[i]);
        assert(trim(s).last() == t[j - 1]);
    }
}

/// Replacing a pattern changes nothing in a text where it does not occur, and a text that
/// starts with the pattern starts with the replacement, the rest replaced in turn.
pub proof fn law_replace_all(s: Seq<char>, pat: Seq<char>, rep: Seq<char>)
    requires
        pat.len() > 0,
    ensures
        !contains(s, pat) ==> replace_all(s, pat, rep) == s,
        replace_all(pat + s, pat, rep) == rep + replace_all(s, pat, rep),
{
    if !contains(s, pat) {
        lemma_replace_absent(s, pat, rep);
    }
    let t = pat + s;
    assert(t.subrange(0, pat.len() as int) =~= pat);
    assert(occurs_at(t, pat, 0));
    assert(t.skip(pat.len() as int) =~= s);
}

proof fn lemma_replace_absent(s: Seq<char>, pat: Seq<char>, rep: Seq<char>)
    requires
        pat.len() > 0,
        !contains(s, pat),
    ensures
        replace_all(s, pat, rep) == s,
    decreases s.len(),
{
    if s.len() > 0 {
        assert(!occurs_at(s, pat, 0));
        let t = s.drop_first();
        assert forall|i: int| !occurs_at(t, pat, i) by {
            if occurs_at(t, pat, i) {
                assert(t.subrange(i, i + pat.len()) =~= s.subrange(i + 1, i + 1 + pat.len()));
                assert(occurs_at(s, pat, i + 1));
            }
        }
        lemma_replace_absent(t, pat, rep);
        assert(seq![s[0]] + t =~= s);
    }
}

proof fn lemma_line_end_clear(s: Seq<char>)
    ensures
        line_end(s) <= s.len(),
        no_newline(s.take(line_end(s) as int)),
        line_end(s) < s.len() ==> s[line_end(s) as int] == '\n',
    decreases s.len(),
{
    if s.len() > 0 && s[0] != '\n' {
        let t = s.drop_first();
        lemma_line_end_clear(t);
        assert forall|i: int| 0 <= i < line_end(s) implies #[trigger] s.take(line_end(s) as int)[i] != '\n' by {
            if i > 0 {
                assert(s.take(line_end(s) as int)[i] == t.take(line_end(t) as int)[i - 1]);
            }
        }
        if line_end(s) < s.len() {
            assert(s[line_end(s) as int] == t[line_end(t) as int]);
        }
    }
}

/// No line holds a line feed, and a text without one is a single line (or none, when
/// empty).
pub proof fn law_lines_hold_no_line_feed(s: Seq<char>)
    ensures
        forall|k: int| 0 <= k < lines(s).len() ==> no_newline(#[trigger] lines(s)[k]),
        no_newline(s) && s.len() > 0 ==> lines(s) == seq![s],
        s.len() == 0 ==> lines(s).len() == 0,
    decreases s.len(),
{
    lemma_line_end_clear(s);
    if s.len() > 0 {
        let e = line_end(s);
        if e >= s.len() {
            assert(s.take(e as int) =~= s);
        } else {
            let head = strip_cr(s.take(e as int));
            assert(no_newline(head)) by {
                assert forall|i: int| 0 <= i < head.len() implies #[trigger] head[i] != '\n' by {
                    assert(head[i] == s.take(e as int)[i]);
                }
            }
            law_lines_hold_no_line_feed(s.skip(e + 1int));
            let rest = lines(s.skip(e + 1int));
            assert forall|k: int| 0 <= k < lines(s).len() implies no_newline(#[trigger] lines(s)[k]) by {
                if k == 0 {
                    assert(lines(s)[0] == head);
                } else {
                    assert(lines(s)[k] == rest[k - 1]);
                }
            }
        }
        if no_newline(s) {
            if e < s.len() {
                assert(s[e as int] == '\n');
            }
            assert(s.take(e as int) =~= s);
        }
    }
}

/// Text in front that holds no first character of the pattern is kept as it is, and the
/// rest is replaced on its own.
pub proof fn law_replace_after_prefix(a: Seq<char>, b: Seq<char>, pat: Seq<char>, rep: Seq<char>)
    requires
        pat.len() > 0,
        forall|i: int| 0 <= i < a.len() ==> #[trigger] a[i] != pat[0],
    ensures
        replace_all(a + b, pat, rep) == a + replace_all(b, pat, rep),
    decreases a.len(),
{
    if a.len() > 0 {
        let s = a + b;
        if occurs_at(s, pat, 0) {
            assert(s.subrange(0, pat.len() as int)[0] == s[0]);
        }
        let t = a.drop_first();
        assert forall|i: int| 0 <= i < t.len() implies #[trigger] t[i] != pat[0] by {
            assert(t[i] == a[i + 1]);
        }
        law_replace_after_prefix(t, b, pat, rep);
        assert(s.drop_first() =~= t + b);
        assert(seq![s[0]] + (t + replace_all(b, pat, rep)) =~= a + replace_all(b, pat, rep));
    } else {
        assert(a + b =~= b);
        assert(a + replace_all(b, pat, rep) =~= replace_all(b, pat, rep));
    }
}

} // verus!
