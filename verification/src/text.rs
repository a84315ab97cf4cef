//! Character-level string helpers with exact specifications.

use vstd::prelude::*;

verus! {

broadcast use vstd::string::group_string_axioms;

/// True when the two strings hold the same characters.
pub fn same(a: &str, b: &str) -> (r: bool)
    ensures
        r == (a@ == b@),
{
    let x = a.to_owned();
    let y = b.to_owned();
    x == y
}

/// The characters of a string, in order.
pub fn chars(s: &str) -> (r: Vec<char>)
    ensures
        r@ == s@,
{
    let mut out: Vec<char> = Vec::new();
    for c in it: s.chars()
        invariant
            out@ == it.seq().take(it.index() as int),
            it.seq() == s@,
    {
        out.push(c);
    }
    out
}


/// Appends one character to a string.
///
/// Trusted: calls `String::push`, which std documents as appending the
/// character to the end of the string; the contract states exactly that.
#[verifier::external_body]
pub(crate) fn push_char(out: &mut String, c: char)
    ensures
        final(out)@ == old(out)@.push(c),
{
    out.push(c);
}

/// Appends a string slice to a string.
pub fn push_str(out: &mut String, s: &str)
    ensures
        final(out)@ == old(out)@ + s@,
{
    out.append(s);
}

/// A fresh string holding the given characters.
pub fn string_of(cs: &[char]) -> (r: String)
    ensures
        r@ == cs@,
{
    let mut out = String::new();
    let mut i: usize = 0;
    while i < cs.len()
        invariant
            i <= cs@.len(),
            out@ == cs@.take(i as int),
        decreases cs@.len() - i,
    {
        push_char(&mut out, cs[i]);
        assert(cs@.take(i as int + 1) =~= cs@.take(i as int).push(cs@[i as int]));
        i = i + 1;
    }
    assert(cs@.take(cs@.len() as int) =~= cs@);
    out
}

/// A fresh owned copy of a string slice.
pub fn owned(s: &str) -> (r: String)
    ensures
        r@ == s@,
{
    let mut out = String::new();
    out.append(s);
    out
}

/// `p` occurs in `s` starting at position `i`.
pub open spec fn occurs_at(s: Seq<char>, p: Seq<char>, i: int) -> bool {
    0 <= i && i + p.len() <= s.len() && s.subrange(i, i + p.len()) == p
}

/// `p` occurs somewhere in `s`.
pub open spec fn contains(s: Seq<char>, p: Seq<char>) -> bool {
    exists|i: int| occurs_at(s, p, i)
}

/// `s` begins with `p`.
pub open spec fn has_prefix(s: Seq<char>, p: Seq<char>) -> bool {
    occurs_at(s, p, 0)
}

/// `s` ends with `p`.
pub open spec fn has_suffix(s: Seq<char>, p: Seq<char>) -> bool {
    occurs_at(s, p, s.len() - p.len())
}

/// Checks whether `p` occurs in `s` at position `i`.
pub fn matches_at(s: &[char], p: &[char], i: usize) -> (r: bool)
    ensures
        r == occurs_at(s@, p@, i as int),
{
    if i > s.len() || p.len() > s.len() - i {
        return false;
    }
    let mut k: usize = 0;
    while k < p.len()
        invariant
            i + p@.len() <= s@.len(),
            s@.len() == s.len(),
            k <= p@.len(),
            forall|j: int| 0 <= j < k ==> s@[i + j] == p@[j],
        decreases p@.len() - k,
    {
        if s[i + k] != p[k] {
            assert(s@.subrange(i as int, i + p@.len())[k as int] != p@[k as int]);
            return false;
        }
        k = k + 1;
    }
    assert(s@.subrange(i as int, i + p@.len()) =~= p@);
    true
}

/// The first position at which `p` occurs in `s`, if any.
pub open spec fn first_at(s: Seq<char>, p: Seq<char>) -> Option<int> {
    if contains(s, p) {
        Some(choose|i: int| occurs_at(s, p, i) && forall|j: int| 0 <= j < i ==> !occurs_at(s, p, j))
    } else {
        None
    }
}

/// The first position at which `p` occurs in `s`, if any.
pub fn find(s: &[char], p: &[char]) -> (r: Option<usize>)
    ensures
        r matches Some(i) ==> first_at(s@, p@) == Some(i as int),
        r is None ==> first_at(s@, p@) is None,
        match r {
            Some(i) => occurs_at(s@, p@, i as int) && forall|j: int|
                0 <= j < i ==> !occurs_at(s@, p@, j),
            None => !contains(s@, p@),
        },
{
    if p.len() > s.len() {
        return None;
    }
    let last = s.len() - p.len();
    let mut i: usize = 0;
    while i <= last
        invariant
            last == s@.len() - p@.len(),
            forall|j: int| 0 <= j < i ==> !occurs_at(s@, p@, j),
        decreases last + 1 - i,
    {
        if matches_at(s, p, i) {
            proof {
                assert(contains(s@, p@));
                let k = first_at(s@, p@).unwrap();
                assert(k == i as int) by {
                    if k < i {
                    } else if k > i {
                        assert(occurs_at(s@, p@, i as int));
                    }
                }
            }
            return Some(i);
        }
        if i == last {
            assert forall|j: int| !occurs_at(s@, p@, j) by {
                if 0 <= j && j + p@.len() <= s@.len() {
                    assert(j <= i);
                }
            }
            return None;
        }
        i = i + 1;
    }
    None
}

/// Whether `p` occurs in `s`.
pub fn has(s: &[char], p: &[char]) -> (r: bool)
    ensures
        r == contains(s@, p@),
{
    match find(s, p) {
        Some(_) => true,
        None => false,
    }
}

/// Whether `s` begins with `p`.
pub fn starts(s: &[char], p: &[char]) -> (r: bool)
    ensures
        r == has_prefix(s@, p@),
{
    matches_at(s, p, 0)
}

/// Whether `s` ends with `p`.
pub fn ends(s: &[char], p: &[char]) -> (r: bool)
    ensures
        r == has_suffix(s@, p@),
{
    if p.len() > s.len() {
        return false;
    }
    matches_at(s, p, s.len() - p.len())
}

/// The first position of character `c` in `s`, if any, found from the front.
pub open spec fn index_of(s: Seq<char>, c: char) -> Option<int>
    decreases s.len(),
{
    if s.len() == 0 {
        None
    } else if s[0] == c {
        Some(0)
    } else {
        match index_of(s.drop_first(), c) {
            Some(k) => Some(k + 1),
            None => None,
        }
    }
}

/// `index_of` finds the first occurrence, and none when there is none.
pub proof fn index_of_first(s: Seq<char>, c: char)
    ensures
        match index_of(s, c) {
            Some(i) => 0 <= i < s.len() && s[i] == c && forall|j: int| 0 <= j < i ==> s[j] != c,
            None => forall|j: int| 0 <= j < s.len() ==> s[j] != c,
        },
    decreases s.len(),
{
    if s.len() > 0 && s[0] != c {
        index_of_first(s.drop_first(), c);
        match index_of(s.drop_first(), c) {
            Some(k) => {
                assert forall|j: int| 0 <= j < k + 1 implies s[j] != c by {
                    if j > 0 {
                        assert(s[j] == s.drop_first()[j - 1]);
                    }
                }
            },
            None => {
                assert forall|j: int| 0 <= j < s.len() implies s[j] != c by {
                    if j > 0 {
                        assert(s[j] == s.drop_first()[j - 1]);
                    }
                }
            },
        }
    }
}

/// The first occurrence is the one `index_of` finds.
pub proof fn index_of_is(s: Seq<char>, c: char, i: int)
    requires
        0 <= i < s.len(),
        s[i] == c,
        forall|j: int| 0 <= j < i ==> s[j] != c,
    ensures
        index_of(s, c) == Some(i),
{
    index_of_first(s, c);
    match index_of(s, c) {
        Some(k) => {
            if k < i {
                assert(s[k] != c);
            } else if k > i {
                assert(s[i] != c);
            }
        },
        None => {
            assert(s[i] != c);
        },
    }
}

/// No occurrence means `index_of` finds none.
pub proof fn index_of_none(s: Seq<char>, c: char)
    requires
        forall|j: int| 0 <= j < s.len() ==> s[j] != c,
    ensures
        index_of(s, c) is None,
{
    index_of_first(s, c);
    match index_of(s, c) {
        Some(k) => assert(s[k] == c),
        None => {},
    }
}

/// The first position of character `c` in `s`, if any.
pub open spec fn first_of(s: Seq<char>, c: char) -> Option<int> {
    if exists|i: int| 0 <= i < s.len() && s[i] == c {
        Some(choose|i: int| 0 <= i < s.len() && s[i] == c && forall|j: int| 0 <= j < i ==> s[j] != c)
    } else {
        None
    }
}

/// The first position of character `c` in `s`, if any.
pub fn position(s: &[char], c: char) -> (r: Option<usize>)
    ensures
        r matches Some(i) ==> first_of(s@, c) == Some(i as int),
        r is None ==> first_of(s@, c) is None,
        match r {
            Some(i) => i < s@.len() && s@[i as int] == c && forall|j: int| 0 <= j < i ==> s@[j] != c,
            None => forall|j: int| 0 <= j < s@.len() ==> s@[j] != c,
        },
{
    let mut i: usize = 0;
    while i < s.len()
        invariant
            i <= s@.len(),
            forall|j: int| 0 <= j < i ==> s@[j] != c,
        decreases s@.len() - i,
    {
        if s[i] == c {
            proof {
                let k = first_of(s@, c).unwrap();
                assert(k == i as int) by {
                    if k < i {
                        assert(s@[k] != c);
                    } else if k > i {
                        assert(s@[i as int] == c);
                    }
                }
            }
            return Some(i);
        }
        i = i + 1;
    }
    None
}

/// A fresh vector holding `s[from..to]`.
pub fn slice(s: &[char], from: usize, to: usize) -> (r: Vec<char>)
    requires
        from <= to <= s@.len(),
    ensures
        r@ == s@.subrange(from as int, to as int),
{
    let mut out: Vec<char> = Vec::new();
    let mut i: usize = from;
    while i < to
        invariant
            from <= i <= to <= s@.len(),
            out@ == s@.subrange(from as int, i as int),
        decreases to - i,
    {
        out.push(s[i]);
        assert(s@.subrange(from as int, i + 1) =~= s@.subrange(from as int, i as int).push(s@[i as int]));
        i = i + 1;
    }
    out
}


/// The decimal digit character for `d` (0 through 9).
pub open spec fn digit_char(d: int) -> char {
    if d == 0 { '0' }
    else if d == 1 { '1' }
    else if d == 2 { '2' }
    else if d == 3 { '3' }
    else if d == 4 { '4' }
    else if d == 5 { '5' }
    else if d == 6 { '6' }
    else if d == 7 { '7' }
    else if d == 8 { '8' }
    else { '9' }
}

/// The decimal digits of a natural number, most significant first.
pub open spec fn digits(n: nat) -> Seq<char>
    decreases n,
{
    if n < 10 {
        seq![digit_char(n as int)]
    } else {
        digits(n / 10).push(digit_char((n % 10) as int))
    }
}

/// The decimal text of an integer, with a leading `-` when negative.
pub open spec fn decimal(i: int) -> Seq<char> {
    if i < 0 {
        seq!['-'] + digits((-i) as nat)
    } else {
        digits(i as nat)
    }
}

fn digit(d: u64) -> (c: char)
    requires
        d < 10,
    ensures
        c == digit_char(d as int),
{
    if d == 0 { '0' }
    else if d == 1 { '1' }
    else if d == 2 { '2' }
    else if d == 3 { '3' }
    else if d == 4 { '4' }
    else if d == 5 { '5' }
    else if d == 6 { '6' }
    else if d == 7 { '7' }
    else if d == 8 { '8' }
    else { '9' }
}

/// The decimal digits of an unsigned number.
pub fn natural_text(n: u64) -> (r: Vec<char>)
    ensures
        r@ == digits(n as nat),
{
    let mut m = n;
    let mut acc: Vec<char> = Vec::new();
    while m >= 10
        invariant
            digits(n as nat) == digits(m as nat) + acc@,
        decreases m,
    {
        let d = digit(m % 10);
        acc.insert(0, d);
        assert(digits(m as nat) == digits((m / 10) as nat).push(digit_char((m % 10) as int)));
        assert(digits((m / 10) as nat) + acc@ =~= digits((m / 10) as nat).push(d) + acc@.drop_first());
        m = m / 10;
    }
    let d = digit(m);
    acc.insert(0, d);
    assert(acc@ =~= digits(m as nat) + acc@.drop_first());
    acc
}

/// The decimal text of a signed number, as `to_string` writes it.
pub fn int_text(i: i64) -> (r: String)
    ensures
        r@ == decimal(i as int),
{
    let mut out = String::new();
    if i < 0 {
        push_char(&mut out, '-');
        let mag: u64 = if i == i64::MIN { 9223372036854775808u64 } else { (-i) as u64 };
        let ds = natural_text(mag);
        let tail = string_of(ds.as_slice());
        push_str(&mut out, tail.as_str());
    } else {
        let ds = natural_text(i as u64);
        let tail = string_of(ds.as_slice());
        push_str(&mut out, tail.as_str());
    }
    out
}

/// The decimal text of an unsigned size.
pub fn size_text(n: usize) -> (r: String)
    ensures
        r@ == digits(n as nat),
{
    let ds = natural_text(n as u64);
    string_of(ds.as_slice())
}

/// `c` is an ASCII decimal digit.
pub open spec fn is_digit(c: char) -> bool {
    '0' <= c && c <= '9'
}

/// Every character of `s` is an ASCII decimal digit.
pub open spec fn all_digits(s: Seq<char>) -> bool {
    forall|i: int| 0 <= i < s.len() ==> is_digit(#[trigger] s[i])
}

/// The value of a run of decimal digits.
pub open spec fn digits_value(s: Seq<char>) -> int
    decreases s.len(),
{
    if s.len() == 0 {
        0
    } else {
        digits_value(s.drop_last()) * 10 + (s.last() as int - '0' as int)
    }
}

/// The integer that decimal text denotes, signs `+` and `-` allowed, before any range check.
pub open spec fn parsed_int(s: Seq<char>) -> Option<int> {
    if s.len() > 0 && (s[0] == '-' || s[0] == '+') {
        let body = s.drop_first();
        if body.len() > 0 && all_digits(body) {
            Some(if s[0] == '-' { -digits_value(body) } else { digits_value(body) })
        } else {
            None
        }
    } else if s.len() > 0 && all_digits(s) {
        Some(digits_value(s))
    } else {
        None
    }
}

/// What `str::parse::<i64>` gives for the text: the value when it is well formed and in range.
pub open spec fn parse_i64(s: Seq<char>) -> Option<i64> {
    match parsed_int(s) {
        Some(v) => if i64::MIN <= v && v <= i64::MAX { Some(v as i64) } else { None },
        None => None,
    }
}

proof fn lemma_digits_value_nonneg(s: Seq<char>)
    requires
        all_digits(s),
    ensures
        digits_value(s) >= 0,
    decreases s.len(),
{
    if s.len() > 0 {
        lemma_digits_value_nonneg(s.drop_last());
    }
}

proof fn lemma_digits_value_grows(s: Seq<char>, k: int)
    requires
        all_digits(s),
        0 <= k <= s.len(),
    ensures
        digits_value(s.take(k)) <= digits_value(s),
    decreases s.len() - k,
{
    if k < s.len() {
        lemma_digits_value_grows(s, k + 1);
        assert(s.take(k + 1).drop_last() =~= s.take(k));
        lemma_digits_value_nonneg(s.take(k));
    } else {
        assert(s.take(k) =~= s);
    }
}

/// Parses decimal text into an `i64` exactly as `str::parse::<i64>` does.
pub fn parse_int(s: &[char]) -> (r: Option<i64>)
    ensures
        r == parse_i64(s@),
{
    if s.len() == 0 {
        return None;
    }
    let negative = s[0] == '-';
    let start: usize = if s[0] == '-' || s[0] == '+' { 1 } else { 0 };
    let ghost body = s@.subrange(start as int, s@.len() as int);
    assert(start == 1 ==> body =~= s@.drop_first());
    assert(start == 0 ==> body =~= s@);
    if start == s.len() {
        return None;
    }
    let bound: i128 = 9223372036854775808i128;
    let mut acc: i128 = 0;
    let mut over = false;
    let mut i: usize = start;
    while i < s.len()
        invariant
            start <= i <= s@.len(),
            s@.len() == s.len(),
            bound == 9223372036854775808i128,
            start == 0 || start == 1,
            start == 1 ==> (body == s@.drop_first()),
            start == 1 ==> (negative <==> s@[0] == '-') && (s@[0] == '-' || s@[0] == '+'),
            start == 0 ==> (body == s@),
            start == 0 ==> !negative && s@[0] != '-' && s@[0] != '+',
            s@.len() > 0,
            body == s@.subrange(start as int, s@.len() as int),
            all_digits(body.take(i - start)),
            !over ==> acc == digits_value(body.take(i - start)) && 0 <= acc <= bound,
            over ==> digits_value(body.take(i - start)) > bound,
        decreases s@.len() - i,
    {
        let c = s[i];
        if !('0' <= c && c <= '9') {
            proof {
                assert(body[i - start] == c);
                assert(!is_digit(body[i - start]));
                assert(!all_digits(body));
                if start == 0 {
                    assert(!all_digits(s@));
                    assert(parsed_int(s@) is None);
                } else {
                    assert(body =~= s@.drop_first());
                    assert(!all_digits(s@.drop_first()));
                    assert(parsed_int(s@) is None);
                }
            }
            return None;
        }
        proof {
            assert(body.take(i - start + 1).drop_last() =~= body.take(i - start));
            assert(body.take(i - start + 1).last() == c);
            assert(all_digits(body.take(i - start + 1))) by {
                assert forall|j: int| 0 <= j < i - start + 1 implies is_digit(#[trigger] body.take(i - start + 1)[j]) by {
                    if j < i - start {
                        assert(body.take(i - start + 1)[j] == body.take(i - start)[j]);
                    }
                }
            }
            lemma_digits_value_nonneg(body.take(i - start));
        }
        if !over {
            let d = (c as u32 - '0' as u32) as i128;
            acc = acc * 10 + d;
            if acc > bound {
                over = true;
            }
        }
        i = i + 1;
    }
    assert(body.take(i - start) =~= body);
    if over {
        return None;
    }
    if negative {
        let v = -acc;
        Some(v as i64)
    } else {
        if acc > 9223372036854775807i128 {
            return None;
        }
        Some(acc as i64)
    }
}

} // verus!

verus! {

proof fn digit_char_value(k: int)
    requires
        0 <= k < 10,
    ensures
        digit_char(k) as int - '0' as int == k,
        is_digit(digit_char(k)),
{
}

/// The decimal digits of a number are digits, and read back as the number.
pub proof fn digits_read_back(n: nat)
    ensures
        digits(n).len() > 0,
        all_digits(digits(n)),
        digits_value(digits(n)) == n,
        forall|i: int| 0 <= i < digits(n).len() ==> #[trigger] digits(n)[i] != '.' && digits(n)[i] != '-' && digits(n)[i] != '+',
    decreases n,
{
    if n < 10 {
        digit_char_value(n as int);
        let d = digits(n);
        assert(d == seq![digit_char(n as int)]);
        assert(d.drop_last() =~= Seq::<char>::empty());
        assert(digits_value(Seq::<char>::empty()) == 0);
        assert(digits_value(d) == digits_value(d.drop_last()) * 10 + (d.last() as int - '0' as int));
        assert(all_digits(d)) by {
            assert forall|i: int| 0 <= i < d.len() implies is_digit(#[trigger] d[i]) by {
                assert(d[i] == digit_char(n as int));
            }
        }
    }
    if n >= 10 {
        digits_read_back(n / 10);
        digit_char_value((n % 10) as int);
        let d = digits(n);
        let p = digits(n / 10);
        assert(d.drop_last() =~= p);
        assert(d.last() == digit_char((n % 10) as int));
        assert(digits_value(d) == digits_value(p) * 10 + (d.last() as int - '0' as int));
        assert((n / 10) * 10 + n % 10 == n) by (nonlinear_arith);
        assert(all_digits(d)) by {
            assert forall|i: int| 0 <= i < d.len() implies is_digit(#[trigger] d[i]) by {
                if i < p.len() {
                    assert(d[i] == p[i]);
                }
            }
        }
        assert forall|i: int| 0 <= i < d.len() implies #[trigger] d[i] != '.' && d[i] != '-' && d[i] != '+' by {
            if i < p.len() {
                assert(d[i] == p[i]);
            }
        }
    }
}

/// The decimal text of an `i64` reads back, through `str::parse::<i64>`, as the number.
pub proof fn decimal_read_back(n: i64)
    ensures
        parse_i64(decimal(n as int)) == Some(n),
        forall|i: int| 0 <= i < decimal(n as int).len() ==> #[trigger] decimal(n as int)[i] != '.',
{
    if n < 0 {
        let m = (-(n as int)) as nat;
        digits_read_back(m);
        let s = decimal(n as int);
        assert(s.drop_first() =~= digits(m));
        assert forall|i: int| 0 <= i < s.len() implies #[trigger] s[i] != '.' by {
            if i > 0 {
                assert(s[i] == digits(m)[i - 1]);
            }
        }
    } else {
        digits_read_back(n as nat);
    }
}

/// The first occurrence of a character is where it first stands.
pub proof fn first_of_is(s: Seq<char>, c: char, i: int)
    requires
        0 <= i < s.len(),
        s[i] == c,
        forall|j: int| 0 <= j < i ==> s[j] != c,
    ensures
        first_of(s, c) == Some(i),
{
    let k = first_of(s, c).unwrap();
    assert(k == i) by {
        if k < i {
            assert(s[k] != c);
        } else if k > i {
            assert(s[i] == c);
        }
    }
}

/// A character that does not stand in the text has no first occurrence.
pub proof fn first_of_none(s: Seq<char>, c: char)
    requires
        forall|j: int| 0 <= j < s.len() ==> s[j] != c,
    ensures
        first_of(s, c) is None,
{
}

/// The text with each occurrence of `p`, from left to right and not overlapping, replaced by
/// `w`.
pub open spec fn replaced(s: Seq<char>, p: Seq<char>, w: Seq<char>) -> Seq<char>
    decreases s.len(),
{
    if p.len() == 0 || s.len() < p.len() {
        s
    } else if s.take(p.len() as int) == p {
        w + replaced(s.skip(p.len() as int), p, w)
    } else {
        seq![s[0]] + replaced(s.drop_first(), p, w)
    }
}

/// Replaces each occurrence of a non-empty `p` in `s`, left to right, by `w`.
pub fn replace(s: &str, p: &str, w: &str) -> (r: String)
    requires
        p@.len() > 0,
    ensures
        r@ == replaced(s@, p@, w@),
{
    let cs = chars(s);
    let ps = chars(p);
    let mut out = String::new();
    let mut i: usize = 0;
    proof {
        reveal_strlit("");
        assert(s@.skip(0) =~= s@);
    }
    while i < cs.len()
        invariant
            i <= cs@.len(),
            cs@ == s@,
            ps@ == p@,
            p@.len() > 0,
            replaced(s@, p@, w@) == out@ + replaced(s@.skip(i as int), p@, w@),
        decreases cs@.len() - i,
    {
        let ghost rest = s@.skip(i as int);
        let fits = ps.len() <= cs.len() - i;
        proof {
            if i + p@.len() <= s@.len() {
                assert(rest.take(p@.len() as int) =~= cs@.subrange(i as int, i + p@.len()));
            }
        }
        if fits && matches_at(cs.as_slice(), ps.as_slice(), i) {
            assert(rest.skip(p@.len() as int) =~= s@.skip(i + p@.len()));
            push_str(&mut out, w);
            i = i + ps.len();
        } else {
            assert(rest.drop_first() =~= s@.skip(i + 1));
            let ghost before = out@;
            push_char(&mut out, cs[i]);
            assert(out@ =~= before + seq![rest[0]]);
            i = i + 1;
        }
    }
    assert(s@.skip(i as int) =~= Seq::<char>::empty());
    out
}

} // verus!
