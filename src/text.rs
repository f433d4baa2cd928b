use vstd::prelude::*;

verus! {

/// Relies on String::push: appends one character to the string.
#[verifier::external_body]
pub(crate) fn push_char(s: &mut String, c: char)
    ensures
        final(s)@ == old(s)@.push(c),
{
    s.push(c)
}

/// Returns an owned copy of `s`.
pub fn owned(s: &str) -> (r: String)
    ensures
        r@ == s@,
{
    s.to_owned()
}

/// Returns `a` followed by `b`.
pub fn join2(a: &str, b: &str) -> (r: String)
    ensures
        r@ == a@ + b@,
{
    let mut r = owned(a);
    r.append(b);
    r
}

/// The characters of `s`, one per slot.
pub fn chars_of(s: &str) -> (r: Vec<char>)
    ensures
        r@ == s@,
{
    let mut r: Vec<char> = Vec::new();
    let ghost ss = s@;
    for c in it: s.chars()
        invariant
            it.seq() == ss,
            r@ == ss.subrange(0, it.index() as int),
    {
        r.push(c);
        proof {
            assert(ss.subrange(0, it.index() + 1) =~= ss.subrange(0, it.index() as int).push(c));
        }
    }
    assert(ss.subrange(0, ss.len() as int) =~= ss);
    r
}

/// The string made of the characters `v[start..end]`.
pub fn string_of_range(v: &Vec<char>, start: usize, end: usize) -> (r: String)
    requires
        start <= end <= v.len(),
    ensures
        r@ == v@.subrange(start as int, end as int),
{
    let mut r = String::new();
    let mut i: usize = start;
    while i < end
        invariant
            start <= i <= end <= v.len(),
            r@ == v@.subrange(start as int, i as int),
        decreases end - i,
    {
        push_char(&mut r, v[i]);
        proof {
            assert(v@.subrange(start as int, i + 1) =~= v@.subrange(start as int, i as int).push(v@[i as int]));
        }
        i = i + 1;
    }
    r
}

/// Whether `prefix` is a prefix of `s`.
pub fn starts_with(s: &str, prefix: &str) -> (r: bool)
    ensures
        r == prefix@.is_prefix_of(s@),
{
    let sv = chars_of(s);
    let pv = chars_of(prefix);
    if pv.len() > sv.len() {
        return false;
    }
    let mut i: usize = 0;
    while i < pv.len()
        invariant
            pv.len() <= sv.len(),
            i <= pv.len(),
            pv@ == prefix@,
            sv@ == s@,
            forall|j: int| 0 <= j < i ==> pv@[j] == sv@[j],
        decreases pv.len() - i,
    {
        if pv[i] != sv[i] {
            return false;
        }
        i = i + 1;
    }
    true
}

/// The decimal digit character for `d`.
pub open spec fn digit_char(d: nat) -> char {
    (('0' as u32) + d) as char
}

/// The decimal digits of `n`, most significant first, with no leading zero.
pub open spec fn decimal(n: nat) -> Seq<char>
    decreases n,
{
    if n < 10 {
        seq![digit_char(n)]
    } else {
        decimal(n / 10).push(digit_char(n % 10))
    }
}

/// The decimal text of a signed integer: a minus sign before the digits of a negative value.
pub open spec fn signed_decimal(n: int) -> Seq<char> {
    if n < 0 {
        seq!['-'] + decimal((-n) as nat)
    } else {
        decimal(n as nat)
    }
}

fn digit_of(d: u64) -> (c: char)
    requires
        d < 10,
    ensures
        c == digit_char(d as nat),
{
    let c: char = if d == 0 { '0' } else if d == 1 { '1' } else if d == 2 { '2' } else if d == 3 {
        '3'
    } else if d == 4 { '4' } else if d == 5 { '5' } else if d == 6 { '6' } else if d == 7 {
        '7'
    } else if d == 8 { '8' } else { '9' };
    c
}

/// The decimal text of `n`, as `u64::to_string` writes it.
pub fn u64_text(n: u64) -> (r: String)
    ensures
        r@ == decimal(n as nat),
    decreases n,
{
    if n < 10 {
        let mut r = String::new();
        push_char(&mut r, digit_of(n));
        assert(r@ =~= seq![digit_char(n as nat)]);
        r
    } else {
        let mut r = u64_text(n / 10);
        push_char(&mut r, digit_of(n % 10));
        r
    }
}

/// The decimal text of `n`, as `i32::to_string` writes it.
pub fn i32_text(n: i32) -> (r: String)
    ensures
        r@ == signed_decimal(n as int),
{
    if n < 0 {
        let m: u64 = (-(n as i64)) as u64;
        let digits = u64_text(m);
        proof {
            reveal_strlit("-");
            assert("-"@ =~= seq!['-']);
        }
        join2("-", digits.as_str())
    } else {
        u64_text(n as u64)
    }
}

/// The text `true` or `false`, as `bool::to_string` writes it.
pub fn bool_text(b: bool) -> (r: String)
    ensures
        r@ == (if b { "true"@ } else { "false"@ }),
{
    if b {
        owned("true")
    } else {
        owned("false")
    }
}

pub open spec fn is_digit(c: char) -> bool {
    '0' <= c <= '9'
}

pub open spec fn digit_value(c: char) -> nat {
    (c as u32 - '0' as u32) as nat
}

/// The value of a run of decimal digits, most significant first.
pub open spec fn digits_value(s: Seq<char>) -> nat
    decreases s.len(),
{
    if s.len() == 0 {
        0
    } else {
        digits_value(s.drop_last()) * 10 + digit_value(s.last())
    }
}

/// `s` is one or more decimal digits.
pub open spec fn all_digits(s: Seq<char>) -> bool {
    s.len() > 0 && forall|i: int| 0 <= i < s.len() ==> is_digit(#[trigger] s[i])
}

/// The number that `s` spells in decimal, if it is one or more digits whose value is at most `limit`.
pub open spec fn bounded_digits(s: Seq<char>, limit: nat) -> Option<nat> {
    if all_digits(s) && digits_value(s) <= limit {
        Some(digits_value(s))
    } else {
        None
    }
}

proof fn lemma_digits_value_grows(s: Seq<char>, n: int)
    requires
        0 <= n <= s.len(),
        forall|i: int| 0 <= i < s.len() ==> is_digit(#[trigger] s[i]),
    ensures
        digits_value(s.subrange(0, n)) <= digits_value(s),
    decreases s.len() - n,
{
    if n < s.len() {
        lemma_digits_value_grows(s, n + 1);
        assert(s.subrange(0, n + 1).drop_last() =~= s.subrange(0, n));
    } else {
        assert(s.subrange(0, n) =~= s);
    }
}

/// Reads the decimal digits `v[start..end]` as a number no larger than `limit`.
pub fn read_digits(v: &Vec<char>, start: usize, end: usize, limit: u64) -> (r: Option<u64>)
    requires
        start <= end <= v.len(),
    ensures
        r == (match bounded_digits(v@.subrange(start as int, end as int), limit as nat) {
            Some(n) => Some(n as u64),
            None => None,
        }),
{
    let ghost s = v@.subrange(start as int, end as int);
    if start == end {
        return None;
    }
    let mut acc: u64 = 0;
    let mut i: usize = start;
    while i < end
        invariant
            start <= i <= end <= v.len(),
            s == v@.subrange(start as int, end as int),
            forall|j: int| start <= j < i ==> is_digit(#[trigger] v@[j]),
            acc as nat == digits_value(v@.subrange(start as int, i as int)),
            acc <= limit,
        decreases end - i,
    {
        let c = v[i];
        if !('0' <= c && c <= '9') {
            proof {
                assert(s[i - start] == c);
                assert(!all_digits(s));
            }
            return None;
        }
        let d: u64 = (c as u32 - '0' as u32) as u64;
        proof {
            assert(v@.subrange(start as int, i + 1).drop_last() =~= v@.subrange(start as int, i as int));
        }
        let next: u128 = acc as u128 * 10 + d as u128;
        if next > limit as u128 {
            proof {
                let k = (i + 1 - start) as int;
                assert(v@.subrange(start as int, i + 1) =~= s.subrange(0, k));
                if all_digits(s) {
                    lemma_digits_value_grows(s, k);
                }
            }
            return None;
        }
        acc = next as u64;
        i = i + 1;
    }
    proof {
        assert(v@.subrange(start as int, end as int) =~= s);
        assert forall|j: int| 0 <= j < s.len() implies is_digit(#[trigger] s[j]) by {
            assert(s[j] == v@[start + j]);
        }
    }
    Some(acc)
}

/// The pieces of `s` between the occurrences of `sep`, as `str::split` yields them:
/// always at least one piece, and an empty piece on each side of a separator at an end.
pub open spec fn split_on(s: Seq<char>, sep: char) -> Seq<Seq<char>>
    decreases s.len(),
{
    if s.len() == 0 {
        seq![Seq::empty()]
    } else {
        let prev = split_on(s.drop_last(), sep);
        if s.last() == sep {
            prev.push(Seq::empty())
        } else {
            prev.update(prev.len() - 1, prev.last().push(s.last()))
        }
    }
}

pub proof fn lemma_split_on_nonempty(s: Seq<char>, sep: char)
    ensures
        split_on(s, sep).len() >= 1,
    decreases s.len(),
{
    if s.len() > 0 {
        lemma_split_on_nonempty(s.drop_last(), sep);
    }
}

/// The views of a sequence of strings.
pub open spec fn views(v: Seq<String>) -> Seq<Seq<char>> {
    v.map_values(|x: String| x@)
}

/// Splits `v` at each occurrence of `sep`.
pub fn split_chars(v: &Vec<char>, sep: char) -> (r: Vec<String>)
    ensures
        views(r@) == split_on(v@, sep),
{
    let mut pieces: Vec<String> = Vec::new();
    let mut start: usize = 0;
    let mut i: usize = 0;
    proof {
        assert(views(pieces@) =~= Seq::<Seq<char>>::empty());
        assert(v@.subrange(0, 0) =~= Seq::<char>::empty());
        assert(views(pieces@).push(v@.subrange(0, 0)) =~= split_on(v@.subrange(0, 0), sep));
    }
    while i < v.len()
        invariant
            start <= i <= v.len(),
            views(pieces@).push(v@.subrange(start as int, i as int)) == split_on(v@.subrange(0, i as int), sep),
        decreases v.len() - i,
    {
        let ghost before = v@.subrange(0, i as int);
        let ghost after = v@.subrange(0, i + 1);
        proof {
            assert(after.drop_last() =~= before);
            assert(after.last() == v@[i as int]);
        }
        if v[i] == sep {
            let piece = string_of_range(v, start, i);
            let ghost before_push = pieces@;
            pieces.push(piece);
            proof {
                assert(views(pieces@) =~= views(before_push).push(piece@)) by {
                    assert(pieces@ =~= before_push.push(piece));
                }
                assert(v@.subrange((i + 1) as int, (i + 1) as int) =~= Seq::<char>::empty());
            }
            start = i + 1;
        } else {
            proof {
                assert(v@.subrange(start as int, i + 1) =~= v@.subrange(start as int, i as int).push(v@[i as int]));
                let prev = split_on(before, sep);
                assert(views(pieces@).push(v@.subrange(start as int, i + 1)) =~= prev.update(
                    prev.len() - 1,
                    prev.last().push(v@[i as int]),
                ));
            }
        }
        i = i + 1;
    }
    let last = string_of_range(v, start, v.len());
    let ghost old_pieces = pieces@;
    pieces.push(last);
    proof {
        assert(pieces@ =~= old_pieces.push(last));
        assert(views(pieces@) =~= views(old_pieces).push(last@));
        assert(v@.subrange(0, v.len() as int) =~= v@);
    }
    pieces
}

/// The value that `str::parse::<i32>` gives for `s`, if it gives one: an optional sign
/// followed by one or more decimal digits, within the range of `i32`.
pub open spec fn parse_i32_spec(s: Seq<char>) -> Option<int> {
    if s.len() > 0 && s[0] == '-' {
        match bounded_digits(s.drop_first(), 2147483648) {
            Some(n) => Some(-n),
            None => None,
        }
    } else if s.len() > 0 && s[0] == '+' {
        match bounded_digits(s.drop_first(), 2147483647) {
            Some(n) => Some(n as int),
            None => None,
        }
    } else {
        match bounded_digits(s, 2147483647) {
            Some(n) => Some(n as int),
            None => None,
        }
    }
}

/// Parses `s` as a decimal `i32`, as `str::parse::<i32>` does.
pub fn parse_i32(s: &str) -> (r: Option<i32>)
    ensures
        r matches Some(n) ==> parse_i32_spec(s@) == Some(n as int),
        r is None ==> parse_i32_spec(s@) is None,
{
    let v = chars_of(s);
    if v.len() > 0 && v[0] == '-' {
        proof {
            assert(v@.subrange(1, v.len() as int) =~= s@.drop_first());
        }
        match read_digits(&v, 1, v.len(), 2147483648) {
            Some(n) => Some((-(n as i64)) as i32),
            None => None,
        }
    } else if v.len() > 0 && v[0] == '+' {
        proof {
            assert(v@.subrange(1, v.len() as int) =~= s@.drop_first());
        }
        match read_digits(&v, 1, v.len(), 2147483647) {
            Some(n) => Some(n as i32),
            None => None,
        }
    } else {
        proof {
            assert(v@.subrange(0, v.len() as int) =~= s@);
        }
        match read_digits(&v, 0, v.len(), 2147483647) {
            Some(n) => Some(n as i32),
            None => None,
        }
    }
}

/// The index of the first `c` in `s`.
pub open spec fn find_char(s: Seq<char>, c: char) -> Option<nat>
    decreases s.len(),
{
    if s.len() == 0 {
        None
    } else {
        match find_char(s.drop_last(), c) {
            Some(i) => Some(i),
            None => if s.last() == c {
                Some((s.len() - 1) as nat)
            } else {
                None
            },
        }
    }
}

/// The first `c` in a prefix of `s` is the first `c` in `s`.
pub proof fn lemma_find_char_prefix(s: Seq<char>, c: char, n: int)
    requires
        0 <= n <= s.len(),
        find_char(s.subrange(0, n), c) is Some,
    ensures
        find_char(s, c) == find_char(s.subrange(0, n), c),
    decreases s.len() - n,
{
    if n < s.len() {
        assert(s.subrange(0, n + 1).drop_last() =~= s.subrange(0, n));
        lemma_find_char_prefix(s, c, n + 1);
    } else {
        assert(s.subrange(0, n) =~= s);
    }
}

/// `find_char` gives the first position of `c`.
pub proof fn lemma_find_char_first(s: Seq<char>, c: char, j: int)
    requires
        0 <= j < s.len(),
        s[j] == c,
        forall|k: int| 0 <= k < j ==> s[k] != c,
    ensures
        find_char(s, c) == Some(j as nat),
    decreases s.len(),
{
    if j == s.len() - 1 {
        lemma_find_char_none(s.drop_last(), c);
    } else {
        lemma_find_char_first(s.drop_last(), c, j);
    }
}

/// `find_char` finds nothing where `c` does not occur.
pub proof fn lemma_find_char_none(s: Seq<char>, c: char)
    requires
        forall|k: int| 0 <= k < s.len() ==> s[k] != c,
    ensures
        find_char(s, c) is None,
    decreases s.len(),
{
    if s.len() > 0 {
        lemma_find_char_none(s.drop_last(), c);
    }
}

} // verus!
