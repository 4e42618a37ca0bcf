//! Small text utilities: decimal rendering of integers and building strings
//! character by character.
use vstd::prelude::*;

verus! {

/// The ASCII digit for a value below ten.
pub open spec fn digit_char(d: nat) -> char {
    if d == 0 { '0' }
    else if d == 1 { '1' }
    else if d == 2 { '2' }
    else if d == 3 { '3' }
    else if d == 4 { '4' }
    else if d == 5 { '5' }
    else if d == 6 { '6' }
    else if d == 7 { '7' }
    else if d == 8 { '8' }
    else { '9' }
}

/// The decimal rendering of a natural number, most significant digit first,
/// without leading zeros ("0" for zero).
pub open spec fn decimal(n: nat) -> Seq<char>
    decreases n,
{
    if n < 10 {
        seq![digit_char(n)]
    } else {
        decimal(n / 10).push(digit_char(n % 10))
    }
}

/// The decimal rendering of an integer, with a leading '-' when negative.
pub open spec fn signed_decimal(n: int) -> Seq<char> {
    if n < 0 {
        seq!['-'] + decimal((-n) as nat)
    } else {
        decimal(n as nat)
    }
}

/// The number that a string of decimal digits spells, most significant
/// digit first.
pub open spec fn digits_value(s: Seq<char>) -> int
    decreases s.len(),
{
    if s.len() == 0 {
        0
    } else {
        digits_value(s.drop_last()) * 10 + (s.last() as int - '0' as int)
    }
}

proof fn lemma_digit_char(d: nat)
    requires
        d < 10,
    ensures
        digit_char(d) as int - '0' as int == d,
        '0' <= digit_char(d) <= '9',
{
}

/// The decimal rendering of `n` is made of the digits 0 to 9 only, spells
/// `n`, and starts with a zero only when it is "0".
pub proof fn lemma_decimal_spells_number(n: nat)
    ensures
        decimal(n).len() > 0,
        forall|i: int| 0 <= i < decimal(n).len() ==> '0' <= #[trigger] decimal(n)[i] <= '9',
        digits_value(decimal(n)) == n,
        decimal(n)[0] == '0' ==> n == 0,
    decreases n,
{
    if n < 10 {
        lemma_digit_char(n);
        assert(decimal(n).drop_last() =~= Seq::<char>::empty());
        assert(digits_value(decimal(n)) == digits_value(Seq::<char>::empty()) * 10 + (digit_char(n) as int - '0' as int));
    } else {
        lemma_decimal_spells_number(n / 10);
        lemma_digit_char(n % 10);
        let d = decimal(n);
        assert(d.drop_last() =~= decimal(n / 10));
        assert(d.last() == digit_char(n % 10));
        assert(digits_value(d) == digits_value(decimal(n / 10)) * 10 + (digit_char(n % 10) as int - '0' as int));
        assert(n == (n / 10) * 10 + n % 10);
        assert(d[0] == decimal(n / 10)[0]);
        assert forall|i: int| 0 <= i < d.len() implies '0' <= #[trigger] d[i] <= '9' by {
            if i < d.len() - 1 {
                assert(d[i] == decimal(n / 10)[i]);
            }
        }
    }
}

/// Appends one character to a string (std's `String::push`).
#[verifier::external_body]
pub(crate) fn push_char(s: &mut String, c: char)
    ensures
        final(s)@ == old(s)@.push(c),
{
    s.push(c);
}

fn digit(d: u64) -> (c: char)
    requires
        d < 10,
    ensures
        c == digit_char(d as nat),
{
    if d == 0 { '0' }
    else if d == 1 { '1' }
    else if d == 2 { '2' }
    else if d == 3 { '3' }
    else if d == 4 { '4' }
    else if d == 5 { '5' }
    else if d == 6 { '6' }
    else if d == 7 { '7' }
    else if d == 8 { '8' }
    else { '9' }
}

/// Renders `n` in decimal.
pub fn u64_to_decimal(n: u64) -> (res: String)
    ensures
        res@ == decimal(n as nat),
{
    // Collect the digits least significant first.
    let mut digits: Vec<char> = Vec::new();
    let mut rest: u64 = n;
    loop
        invariant
            // decimal(n) == decimal(rest) followed by the collected digits in reverse
            decimal(n as nat) == decimal(rest as nat) + digits@.reverse(),
        ensures
            rest < 10,
            decimal(n as nat) == decimal(rest as nat) + digits@.reverse(),
        decreases rest,
    {
        if rest < 10 {
            break;
        }
        let d = rest % 10;
        let c = digit(d);
        proof {
            let r = rest as nat;
            assert(decimal(r) == decimal(r / 10).push(digit_char(r % 10)));
            assert(digits@.push(c).reverse() =~= seq![c] + digits@.reverse());
            assert(decimal(r / 10).push(c) + digits@.reverse() =~= decimal(r / 10) + (seq![c]
                + digits@.reverse()));
        }
        digits.push(c);
        rest = rest / 10;
    }
    let mut res = String::new();
    push_char(&mut res, digit(rest));
    assert(decimal(rest as nat) =~= seq![digit_char(rest as nat)]);
    let mut i: usize = digits.len();
    while i > 0
        invariant
            i <= digits.len(),
            decimal(n as nat) == decimal(rest as nat) + digits@.reverse(),
            decimal(rest as nat) == seq![digit_char(rest as nat)],
            res@ == seq![digit_char(rest as nat)] + digits@.subrange(i as int, digits.len() as int).reverse(),
        decreases i,
    {
        i = i - 1;
        let c = digits[i];
        proof {
            let tail = digits@.subrange(i + 1, digits.len() as int);
            assert(digits@.subrange(i as int, digits.len() as int) =~= seq![c] + tail);
            assert((seq![c] + tail).reverse() =~= tail.reverse().push(c));
        }
        push_char(&mut res, c);
        assert(res@ =~= seq![digit_char(rest as nat)] + digits@.subrange(i as int, digits.len() as int).reverse());
    }
    assert(digits@.subrange(0, digits.len() as int) =~= digits@);
    res
}

/// Renders `n` in decimal with a leading '-' when negative.
pub fn i64_to_decimal(n: i64) -> (res: String)
    ensures
        res@ == signed_decimal(n as int),
{
    if n < 0 {
        // The magnitude of any i64 fits in a u64.
        let magnitude: u64 = if n == i64::MIN {
            9223372036854775808u64
        } else {
            (-n) as u64
        };
        let digits = u64_to_decimal(magnitude);
        let mut res = String::new();
        push_char(&mut res, '-');
        res.append(digits.as_str());
        res
    } else {
        u64_to_decimal(n as u64)
    }
}


/// `pat` occurs in `s` starting at `i`.
pub open spec fn occurs_at(s: Seq<u8>, pat: Seq<u8>, i: int) -> bool {
    0 <= i && i + pat.len() <= s.len() && s.subrange(i, i + pat.len()) == pat
}

/// `i` is the first position at or after `from` where `pat` occurs in `s`.
pub open spec fn is_first_occurrence(s: Seq<u8>, pat: Seq<u8>, from: int, i: int) -> bool {
    &&& from <= i
    &&& occurs_at(s, pat, i)
    &&& forall|j: int| from <= j < i ==> !occurs_at(s, pat, j)
}

/// The first position at or after `from` where `pat` occurs in `s`.
pub open spec fn find_first(s: Seq<u8>, pat: Seq<u8>, from: int) -> Option<int> {
    if exists|i: int| is_first_occurrence(s, pat, from, i) {
        Some(choose|i: int| is_first_occurrence(s, pat, from, i))
    } else {
        None
    }
}

/// At most one position is the first occurrence.
pub proof fn lemma_first_occurrence_unique(s: Seq<u8>, pat: Seq<u8>, from: int, i: int)
    requires
        is_first_occurrence(s, pat, from, i),
    ensures
        find_first(s, pat, from) == Some(i),
{
    let k = choose|k: int| is_first_occurrence(s, pat, from, k);
    assert(is_first_occurrence(s, pat, from, k));
    if k < i {
        assert(!occurs_at(s, pat, k));
    } else if i < k {
        assert(!occurs_at(s, pat, i));
    }
}

/// A found position is the first occurrence.
pub proof fn lemma_find_first_found(s: Seq<u8>, pat: Seq<u8>, from: int)
    ensures
        find_first(s, pat, from) matches Some(i) ==> is_first_occurrence(s, pat, from, i),
{
}

/// No occurrence at or after `from` means none is found.
pub proof fn lemma_no_occurrence(s: Seq<u8>, pat: Seq<u8>, from: int)
    requires
        forall|j: int| from <= j ==> !occurs_at(s, pat, j),
    ensures
        find_first(s, pat, from) is None,
{
}

/// The first position at or after `from` where `pat` occurs in `s`.
pub fn find_bytes(s: &[u8], pat: &[u8], from: usize) -> (res: Option<usize>)
    ensures
        match res {
            Some(i) => find_first(s@, pat@, from as int) == Some(i as int),
            None => find_first(s@, pat@, from as int) is None,
        },
{
    if pat.len() > s.len() {
        proof {
            lemma_no_occurrence(s@, pat@, from as int);
        }
        return None;
    }
    let last = s.len() - pat.len();
    let mut i = from;
    while i <= last
        invariant
            from <= i,
            last == s.len() - pat.len(),
            forall|j: int| from <= j < i ==> !occurs_at(s@, pat@, j),
        decreases last + 1 - i,
    {
        let mut k: usize = 0;
        let mut matched = true;
        while k < pat.len()
            invariant
                i <= last,
                last == s.len() - pat.len(),
                k <= pat.len(),
                matched <==> forall|t: int| 0 <= t < k ==> s@[i + t] == pat@[t],
            decreases pat.len() - k,
        {
            if s[i + k] != pat[k] {
                matched = false;
            }
            k = k + 1;
        }
        if matched {
            proof {
                assert(s@.subrange(i as int, i + pat.len()) =~= pat@);
                lemma_first_occurrence_unique(s@, pat@, from as int, i as int);
            }
            return Some(i);
        }
        proof {
            if occurs_at(s@, pat@, i as int) {
                let t = choose|t: int| 0 <= t < pat.len() && s@[i + t] != pat@[t];
                assert(s@.subrange(i as int, i + pat.len())[t] == s@[i + t]);
            }
        }
        i = i + 1;
    }
    proof {
        lemma_no_occurrence(s@, pat@, from as int);
    }
    None
}

/// The bytes that Rust's `char::is_whitespace` accepts when read as
/// Latin-1 characters.
pub open spec fn is_latin1_whitespace(b: u8) -> bool {
    b == 9 || b == 10 || b == 11 || b == 12 || b == 13 || b == 32 || b == 0x85 || b == 0xa0
}

/// `s` without its leading whitespace.
pub open spec fn trim_start(s: Seq<u8>) -> Seq<u8>
    decreases s.len(),
{
    if s.len() > 0 && is_latin1_whitespace(s[0]) {
        trim_start(s.drop_first())
    } else {
        s
    }
}

/// `s` without its trailing whitespace.
pub open spec fn trim_end(s: Seq<u8>) -> Seq<u8>
    decreases s.len(),
{
    if s.len() > 0 && is_latin1_whitespace(s.last()) {
        trim_end(s.drop_last())
    } else {
        s
    }
}

/// `s` without leading and trailing whitespace.
pub open spec fn trim(s: Seq<u8>) -> Seq<u8> {
    trim_end(trim_start(s))
}

fn is_whitespace_byte(b: u8) -> (res: bool)
    ensures
        res == is_latin1_whitespace(b),
{
    b == 9 || b == 10 || b == 11 || b == 12 || b == 13 || b == 32 || b == 0x85 || b == 0xa0
}

/// The bounds `(start, end)` of `s[lo..hi]` without leading and trailing
/// whitespace.
pub fn trim_bounds(s: &[u8], lo: usize, hi: usize) -> (res: (usize, usize))
    requires
        lo <= hi <= s.len(),
    ensures
        lo <= res.0 <= res.1 <= hi,
        s@.subrange(res.0 as int, res.1 as int) == trim(s@.subrange(lo as int, hi as int)),
{
    let mut start = lo;
    while start < hi && is_whitespace_byte(s[start])
        invariant
            lo <= start <= hi <= s.len(),
            trim_start(s@.subrange(lo as int, hi as int)) == trim_start(s@.subrange(start as int, hi as int)),
        decreases hi - start,
    {
        assert(s@.subrange(start as int, hi as int).drop_first() =~= s@.subrange(start + 1, hi as int));
        start = start + 1;
    }
    assert(trim_start(s@.subrange(start as int, hi as int)) == s@.subrange(start as int, hi as int));
    let mut end = hi;
    while end > start && is_whitespace_byte(s[end - 1])
        invariant
            lo <= start <= end <= hi <= s.len(),
            trim(s@.subrange(lo as int, hi as int)) == trim_end(s@.subrange(start as int, end as int)),
        decreases end - start,
    {
        assert(s@.subrange(start as int, end as int).drop_last() =~= s@.subrange(start as int, end - 1));
        end = end - 1;
    }
    (start, end)
}


/// The text of `a` followed by that of `b`.
pub fn concat(a: &str, b: &str) -> (res: String)
    ensures
        res@ == a@ + b@,
{
    let mut res = String::from_str(a);
    res.append(b);
    res
}

/// The text of `a`, `b` and `c` in turn.
pub fn concat3(a: &str, b: &str, c: &str) -> (res: String)
    ensures
        res@ == a@ + b@ + c@,
{
    let mut res = String::from_str(a);
    res.append(b);
    res.append(c);
    res
}

/// The text of `a`, `b`, `c` and `d` in turn.
pub fn concat4(a: &str, b: &str, c: &str, d: &str) -> (res: String)
    ensures
        res@ == a@ + b@ + c@ + d@,
{
    let mut res = String::from_str(a);
    res.append(b);
    res.append(c);
    res.append(d);
    res
}

} // verus!
