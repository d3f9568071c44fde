use vstd::prelude::*;

verus! {

/// Character-wise equality of two strings.
pub fn str_eq(a: &str, b: &str) -> (r: bool)
    ensures
        r == (a@ == b@),
{
    let n = a.unicode_len();
    let m = b.unicode_len();
    if n != m {
        return false;
    }
    let mut i: usize = 0;
    while i < n
        invariant
            n == a@.len(),
            m == b@.len(),
            n == m,
            i <= n,
            forall|j: int| 0 <= j < i ==> a@[j] == b@[j],
        decreases n - i,
    {
        if a.get_char(i) != b.get_char(i) {
            return false;
        }
        i = i + 1;
    }
    assert(a@ =~= b@);
    true
}

} // verus!

verus! {

/// Whether `c` has the Unicode `White_Space` property, which is what `char::is_whitespace`
/// answers: tab to carriage return, space, next line, no-break space, ogham space mark, the
/// spaces from en quad to hair space, line and paragraph separators, narrow no-break space,
/// medium mathematical space and ideographic space.
pub open spec fn char_is_whitespace(c: char) -> bool {
    let n = c as u32;
    ||| 0x09 <= n <= 0x0d
    ||| n == 0x20
    ||| n == 0x85
    ||| n == 0xa0
    ||| n == 0x1680
    ||| 0x2000 <= n <= 0x200a
    ||| n == 0x2028
    ||| n == 0x2029
    ||| n == 0x202f
    ||| n == 0x205f
    ||| n == 0x3000
}

/// Whether `c` is whitespace (the Unicode `White_Space` property).
pub fn is_whitespace(c: char) -> (r: bool)
    ensures
        r == char_is_whitespace(c),
{
    let n = c as u32;
    (0x09 <= n && n <= 0x0d) || n == 0x20 || n == 0x85 || n == 0xa0 || n == 0x1680 || (0x2000 <= n && n
        <= 0x200a) || n == 0x2028 || n == 0x2029 || n == 0x202f || n == 0x205f || n == 0x3000
}

/// Appends one character: calls `String::push`, which the std documentation describes as
/// appending the given char to the end of the string.
#[verifier::external_body]
pub(crate) fn push_char(s: &mut String, c: char)
    ensures
        final(s)@ == old(s)@.push(c),
{
    s.push(c)
}

/// `s` without leading and trailing whitespace, as `str::trim` returns it.
pub open spec fn trim_seq(s: Seq<char>) -> Seq<char>
    decreases s.len(),
{
    if s.len() > 0 && char_is_whitespace(s[0]) {
        trim_seq(s.drop_first())
    } else if s.len() > 0 && char_is_whitespace(s.last()) {
        trim_seq(s.drop_last())
    } else {
        s
    }
}

proof fn lemma_trim(s: Seq<char>, lo: int, hi: int)
    requires
        0 <= lo <= hi <= s.len(),
        forall|k: int| 0 <= k < lo ==> char_is_whitespace(#[trigger] s[k]),
        forall|k: int| hi <= k < s.len() ==> char_is_whitespace(#[trigger] s[k]),
        lo < hi ==> !char_is_whitespace(s[lo]) && !char_is_whitespace(s[hi - 1]),
    ensures
        trim_seq(s) == s.subrange(lo, hi),
    decreases s.len(),
{
    if s.len() == 0 {
        assert(s.subrange(lo, hi) =~= s);
    } else if char_is_whitespace(s[0]) {
        if lo == 0 {
            assert(lo == hi);
            assert forall|k: int| 0 <= k < s.len() - 1 implies char_is_whitespace(#[trigger] s.drop_first()[k]) by {
                assert(s.drop_first()[k] == s[k + 1]);
            }
            lemma_trim(s.drop_first(), 0, 0);
            assert(s.subrange(lo, hi) =~= s.drop_first().subrange(0, 0));
        } else {
            assert forall|k: int| 0 <= k < lo - 1 implies char_is_whitespace(#[trigger] s.drop_first()[k]) by {
                assert(s.drop_first()[k] == s[k + 1]);
            }
            assert forall|k: int| hi - 1 <= k < s.len() - 1 implies char_is_whitespace(#[trigger] s.drop_first()[k]) by {
                assert(s.drop_first()[k] == s[k + 1]);
            }
            lemma_trim(s.drop_first(), lo - 1, hi - 1);
            assert(s.subrange(lo, hi) =~= s.drop_first().subrange(lo - 1, hi - 1));
        }
    } else if char_is_whitespace(s.last()) {
        assert(hi < s.len()) by {
            if hi == s.len() && lo < hi {
                assert(!char_is_whitespace(s[hi - 1]));
            }
            if hi == s.len() && lo == hi {
                assert(lo == 0 || char_is_whitespace(s[0]));
            }
        }
        assert forall|k: int| 0 <= k < lo implies char_is_whitespace(#[trigger] s.drop_last()[k]) by {
            assert(s.drop_last()[k] == s[k]);
        }
        assert forall|k: int| hi <= k < s.len() - 1 implies char_is_whitespace(#[trigger] s.drop_last()[k]) by {
            assert(s.drop_last()[k] == s[k]);
        }
        lemma_trim(s.drop_last(), lo, hi);
        assert(s.subrange(lo, hi) =~= s.drop_last().subrange(lo, hi));
    } else {
        assert(lo == 0) by {
            if lo > 0 {
                assert(char_is_whitespace(s[0]));
            }
        }
        assert(hi == s.len()) by {
            if hi < s.len() {
                assert(char_is_whitespace(s[s.len() - 1]));
            }
        }
        assert(s.subrange(lo, hi) =~= s);
    }
}

/// A string starting with a non-whitespace character keeps it when trimmed.
pub proof fn lemma_trim_keeps_first(s: Seq<char>)
    requires
        s.len() > 0,
        !char_is_whitespace(s[0]),
    ensures
        trim_seq(s).len() > 0,
        trim_seq(s)[0] == s[0],
    decreases s.len(),
{
    if char_is_whitespace(s.last()) {
        assert(s.len() > 1);
        assert(s.drop_last()[0] == s[0]);
        lemma_trim_keeps_first(s.drop_last());
    }
}

/// A trimmed string neither starts nor ends with whitespace, so trimming it again changes
/// nothing.
pub proof fn lemma_trim_idempotent(s: Seq<char>)
    ensures
        trim_seq(s).len() > 0 ==> !char_is_whitespace(trim_seq(s)[0]) && !char_is_whitespace(trim_seq(s).last()),
        trim_seq(trim_seq(s)) == trim_seq(s),
    decreases s.len(),
{
    if s.len() > 0 && char_is_whitespace(s[0]) {
        lemma_trim_idempotent(s.drop_first());
    } else if s.len() > 0 && char_is_whitespace(s.last()) {
        lemma_trim_idempotent(s.drop_last());
    }
}

/// A character of `s` that is not whitespace survives trimming.
pub proof fn lemma_trim_keeps(s: Seq<char>, i: int)
    requires
        0 <= i < s.len(),
        !char_is_whitespace(s[i]),
    ensures
        trim_seq(s).contains(s[i]),
    decreases s.len(),
{
    if char_is_whitespace(s[0]) {
        assert(s.drop_first()[i - 1] == s[i]);
        lemma_trim_keeps(s.drop_first(), i - 1);
    } else if char_is_whitespace(s.last()) {
        assert(s.drop_last()[i] == s[i]);
        lemma_trim_keeps(s.drop_last(), i);
    } else {
        assert(trim_seq(s)[i] == s[i]);
    }
}

/// `s` with leading and trailing whitespace removed.
pub fn trim(s: &str) -> (r: String)
    ensures
        r@ == trim_seq(s@),
{
    let n = s.unicode_len();
    let mut lo: usize = 0;
    while lo < n && is_whitespace(s.get_char(lo))
        invariant
            n == s@.len(),
            lo <= n,
            forall|k: int| 0 <= k < lo ==> char_is_whitespace(#[trigger] s@[k]),
        decreases n - lo,
    {
        lo = lo + 1;
    }
    let mut hi: usize = n;
    while hi > lo && is_whitespace(s.get_char(hi - 1))
        invariant
            n == s@.len(),
            lo <= hi <= n,
            forall|k: int| hi <= k < n ==> char_is_whitespace(#[trigger] s@[k]),
        decreases hi - lo,
    {
        hi = hi - 1;
    }
    proof {
        lemma_trim(s@, lo as int, hi as int);
    }
    String::from_str(s.substring_char(lo, hi))
}

/// `s` is empty, or is whitespace only.
pub fn is_blank(s: &str) -> (r: bool)
    ensures
        r == (trim_seq(s@).len() == 0),
{
    let t = trim(s);
    t.as_str().unicode_len() == 0
}

} // verus!

verus! {

/// The pieces of `s` between occurrences of `sep`, as `str::split` yields them: there is
/// always at least one piece, and neighbouring separators leave empty pieces.
pub open spec fn split_seq(s: Seq<char>, sep: char) -> Seq<Seq<char>>
    decreases s.len(),
{
    if s.len() == 0 {
        seq![Seq::empty()]
    } else {
        let prev = split_seq(s.drop_last(), sep);
        if s.last() == sep {
            prev.push(Seq::empty())
        } else {
            prev.update(prev.len() - 1, prev.last().push(s.last()))
        }
    }
}

pub proof fn lemma_split_len(s: Seq<char>, sep: char)
    ensures
        split_seq(s, sep).len() >= 1,
    decreases s.len(),
{
    if s.len() > 0 {
        lemma_split_len(s.drop_last(), sep);
    }
}

/// A string without the separator is one piece.
pub proof fn lemma_split_without_sep(s: Seq<char>, sep: char)
    requires
        !s.contains(sep),
    ensures
        split_seq(s, sep) == seq![s],
    decreases s.len(),
{
    if s.len() > 0 {
        assert(!s.drop_last().contains(sep)) by {
            if s.drop_last().contains(sep) {
                let k = choose|k: int| 0 <= k < s.drop_last().len() && s.drop_last()[k] == sep;
                assert(s[k] == sep);
            }
        }
        lemma_split_without_sep(s.drop_last(), sep);
        assert(s.last() != sep) by {
            assert(s[s.len() - 1] == s.last());
        }
        assert(s.drop_last().push(s.last()) =~= s);
        assert(split_seq(s, sep) =~= seq![s]);
    } else {
        assert(s =~= Seq::<char>::empty());
    }
}

/// Splitting `a`, the separator, then `b` gives the pieces of `a` followed by those of `b`.
pub proof fn lemma_split_join(a: Seq<char>, b: Seq<char>, sep: char)
    ensures
        split_seq(a + seq![sep] + b, sep) == split_seq(a, sep) + split_seq(b, sep),
    decreases b.len(),
{
    let s = a + seq![sep] + b;
    if b.len() == 0 {
        assert(s.drop_last() =~= a);
        assert(split_seq(s, sep) =~= split_seq(a, sep) + split_seq(b, sep));
    } else {
        assert(s.drop_last() =~= a + seq![sep] + b.drop_last());
        lemma_split_join(a, b.drop_last(), sep);
        lemma_split_len(b.drop_last(), sep);
        lemma_split_len(a, sep);
        let pa = split_seq(a, sep);
        let pb = split_seq(b.drop_last(), sep);
        assert(s.last() == b.last());
        if b.last() == sep {
            assert(split_seq(s, sep) =~= pa + pb.push(Seq::empty()));
        } else {
            assert((pa + pb).update((pa + pb).len() - 1, (pa + pb).last().push(b.last())) =~= pa + pb.update(
                pb.len() - 1,
                pb.last().push(b.last()),
            ));
        }
    }
}

pub open spec fn strings_seq(v: Seq<String>) -> Seq<Seq<char>> {
    v.map_values(|s: String| s@)
}

/// Splits `s` at every `sep`.
pub fn split_char(s: &str, sep: char) -> (pieces: Vec<String>)
    ensures
        strings_seq(pieces@) == split_seq(s@, sep),
{
    let n = s.unicode_len();
    let mut pieces: Vec<String> = Vec::new();
    let mut cur = String::new();
    let mut i: usize = 0;
    while i < n
        invariant
            n == s@.len(),
            i <= n,
            strings_seq(pieces@).push(cur@) == split_seq(s@.take(i as int), sep),
        decreases n - i,
    {
        proof {
            assert(s@.take(i + 1).drop_last() =~= s@.take(i as int));
            lemma_split_len(s@.take(i as int), sep);
        }
        let c = s.get_char(i);
        let ghost prev = split_seq(s@.take(i as int), sep);
        if c == sep {
            let done = cur;
            pieces.push(done);
            cur = String::new();
            proof {
                assert(strings_seq(pieces@) =~= prev);
                assert(strings_seq(pieces@).push(cur@) =~= split_seq(s@.take(i + 1), sep));
            }
        } else {
            let ghost old_cur = cur@;
            push_char(&mut cur, c);
            proof {
                assert(strings_seq(pieces@).push(cur@) =~= prev.update(prev.len() - 1, prev.last().push(c)));
            }
        }
        i = i + 1;
    }
    assert(s@.take(n as int) =~= s@);
    let ghost before = pieces@;
    pieces.push(cur);
    assert(strings_seq(pieces@) =~= strings_seq(before).push(cur@));
    pieces
}

} // verus!

verus! {

/// What `char::is_uppercase` answers for `c` (the Unicode `Uppercase` property).
pub uninterp spec fn char_is_uppercase(c: char) -> bool;

/// The characters `char::to_uppercase` yields for `c` (one or more).
pub uninterp spec fn char_upper(c: char) -> Seq<char>;

/// Calls `char::is_uppercase`; the answer is named `char_is_uppercase`.
#[verifier::external_body]
pub(crate) fn is_uppercase(c: char) -> (r: bool)
    ensures
        r == char_is_uppercase(c),
{
    c.is_uppercase()
}

/// Collects `char::to_uppercase` of `c` into a string; its characters are named `char_upper`.
#[verifier::external_body]
pub(crate) fn to_uppercase(c: char) -> (r: String)
    ensures
        r@ == char_upper(c),
{
    c.to_uppercase().collect()
}

/// The words of `s`: its maximal runs of non-whitespace characters, as `str::split_whitespace` yields them.
pub open spec fn words_of(s: Seq<char>) -> Seq<Seq<char>>
    decreases s.len(),
{
    if s.len() == 0 {
        Seq::empty()
    } else {
        let prev = words_of(s.drop_last());
        let c = s.last();
        if char_is_whitespace(c) {
            prev
        } else if s.len() == 1 || char_is_whitespace(s[s.len() - 2]) {
            prev.push(seq![c])
        } else {
            prev.update(prev.len() - 1, prev.last().push(c))
        }
    }
}

/// `words` joined with single spaces.
pub open spec fn join_spaces(words: Seq<Seq<char>>) -> Seq<char>
    decreases words.len(),
{
    if words.len() == 0 {
        Seq::empty()
    } else if words.len() == 1 {
        words[0]
    } else {
        join_spaces(words.drop_last()) + " "@ + words.last()
    }
}

} // verus!

verus! {

/// Index of the first `c` in `s`, or -1.
pub open spec fn first_index(s: Seq<char>, c: char) -> int
    decreases s.len(),
{
    if s.len() == 0 {
        -1
    } else if s[0] == c {
        0
    } else {
        let k = first_index(s.drop_first(), c);
        if k < 0 { -1 } else { k + 1 }
    }
}

proof fn lemma_first_index(s: Seq<char>, c: char)
    ensures
        -1 <= first_index(s, c) < s.len(),
        first_index(s, c) >= 0 ==> s[first_index(s, c)] == c,
        forall|k: int| 0 <= k < s.len() && (first_index(s, c) < 0 || k < first_index(s, c)) ==> #[trigger] s[k] != c,
    decreases s.len(),
{
    if s.len() > 0 {
        lemma_first_index(s.drop_first(), c);
        assert forall|k: int| 1 <= k < s.len() implies s.drop_first()[k - 1] == s[k] by {}
    }
}

/// Finds the first `c` in `s`.
pub fn find_char(s: &str, c: char) -> (r: Option<usize>)
    ensures
        match r {
            None => first_index(s@, c) < 0,
            Some(k) => k < s@.len() && first_index(s@, c) == k,
        },
{
    proof {
        lemma_first_index(s@, c);
    }
    let n = s.unicode_len();
    let mut k: usize = 0;
    while k < n
        invariant
            n == s@.len(),
            k <= n,
            forall|j: int| 0 <= j < k ==> s@[j] != c,
            -1 <= first_index(s@, c) < s@.len(),
            first_index(s@, c) >= 0 ==> s@[first_index(s@, c)] == c,
            forall|j: int| 0 <= j < s@.len() && (first_index(s@, c) < 0 || j < first_index(s@, c)) ==> #[trigger] s@[j] != c,
        decreases n - k,
    {
        if s.get_char(k) == c {
            return Some(k);
        }
        k = k + 1;
    }
    None
}

/// `s` without its leading `c`s.
pub open spec fn trim_start_char(s: Seq<char>, c: char) -> Seq<char>
    decreases s.len(),
{
    if s.len() > 0 && s[0] == c {
        trim_start_char(s.drop_first(), c)
    } else {
        s
    }
}

/// `s` without its leading `c`s, as `str::trim_start_matches(c)` returns it.
pub fn trim_start(s: &str, c: char) -> (r: String)
    ensures
        r@ == trim_start_char(s@, c),
{
    let n = s.unicode_len();
    let mut i: usize = 0;
    assert(s@.skip(0) =~= s@);
    while i < n && s.get_char(i) == c
        invariant
            n == s@.len(),
            i <= n,
            trim_start_char(s@, c) == trim_start_char(s@.skip(i as int), c),
        decreases n - i,
    {
        assert(s@.skip(i as int)[0] == c);
        assert(s@.skip(i as int).drop_first() =~= s@.skip(i + 1));
        i = i + 1;
    }
    assert(s@.skip(i as int) =~= s@.subrange(i as int, n as int));
    String::from_str(s.substring_char(i, n))
}

/// The part of `s` before its first `c` (all of `s` if it has none).
pub open spec fn before_char(s: Seq<char>, c: char) -> Seq<char> {
    if first_index(s, c) < 0 { s } else { s.take(first_index(s, c)) }
}

} // verus!

verus! {

pub open spec fn is_decimal_digit(c: char) -> bool {
    '0' <= c && c <= '9'
}

/// The value of a run of decimal digits.
pub open spec fn decimal_value(d: Seq<char>) -> int
    decreases d.len(),
{
    if d.len() == 0 {
        0
    } else {
        decimal_value(d.drop_last()) * 10 + (d.last() as int - '0' as int)
    }
}

/// `s` without a leading sign.
pub open spec fn digits_part(s: Seq<char>) -> Seq<char> {
    if s.len() > 0 && (s[0] == '-' || s[0] == '+') { s.drop_first() } else { s }
}

/// What `str::parse::<i64>` reads from `s`: an optional `+` or `-` followed by one or more
/// decimal digits and nothing else, whose value fits in an `i64`.
pub open spec fn i64_of_str(s: Seq<char>) -> Option<i64> {
    let d = digits_part(s);
    let v = if s.len() > 0 && s[0] == '-' { -decimal_value(d) } else { decimal_value(d) };
    if d.len() == 0 || !(forall|i: int| 0 <= i < d.len() ==> is_decimal_digit(#[trigger] d[i])) {
        None
    } else if i64::MIN <= v <= i64::MAX {
        Some(v as i64)
    } else {
        None
    }
}

proof fn lemma_decimal_value_grows(d: Seq<char>, k: int)
    requires
        0 <= k <= d.len(),
        forall|i: int| 0 <= i < d.len() ==> is_decimal_digit(#[trigger] d[i]),
    ensures
        0 <= decimal_value(d.take(k)) <= decimal_value(d),
    decreases d.len() - k,
{
    if k < d.len() {
        lemma_decimal_value_grows(d, k + 1);
        assert(d.take(k + 1).drop_last() =~= d.take(k));
        assert(d.take(k + 1).last() == d[k]);
    } else {
        assert(d.take(k) =~= d);
    }
    lemma_decimal_value_nonneg(d.take(k));
}

proof fn lemma_decimal_value_nonneg(d: Seq<char>)
    requires
        forall|i: int| 0 <= i < d.len() ==> is_decimal_digit(#[trigger] d[i]),
    ensures
        decimal_value(d) >= 0,
    decreases d.len(),
{
    if d.len() > 0 {
        assert(is_decimal_digit(d[d.len() - 1]));
        lemma_decimal_value_nonneg(d.drop_last());
    }
}

proof fn lemma_refused_digit(s: Seq<char>, j: int)
    requires
        0 <= j < digits_part(s).len(),
        !is_decimal_digit(digits_part(s)[j]),
    ensures
        i64_of_str(s) is None,
{
}

proof fn lemma_refused_value(s: Seq<char>, k: int)
    requires
        0 <= k <= digits_part(s).len(),
        decimal_value(digits_part(s).take(k)) > 9223372036854775808,
    ensures
        i64_of_str(s) is None,
{
    let d = digits_part(s);
    if forall|j: int| 0 <= j < d.len() ==> is_decimal_digit(#[trigger] d[j]) {
        lemma_decimal_value_grows(d, k);
    }
}

/// Reads a decimal `i64` the way `str::parse::<i64>` does.
pub fn parse_i64(s: &str) -> (r: Option<i64>)
    ensures
        r == i64_of_str(s@),
{
    let n = s.unicode_len();
    if n == 0 {
        return None;
    }
    let first = s.get_char(0);
    let negative = first == '-';
    let start: usize = if first == '-' || first == '+' { 1 } else { 0 };
    let ghost d = if start == 1 { s@.drop_first() } else { s@ };
    assert(d =~= s@.skip(start as int));
    if start == n {
        return None;
    }
    let limit: i128 = 9223372036854775808;
    let mut v: i128 = 0;
    let mut i: usize = start;
    while i < n
        invariant
            n == s@.len(),
            start < n,
            start <= i <= n,
            limit == 9223372036854775808,
            d == s@.skip(start as int),
            d == digits_part(s@),
            forall|j: int| 0 <= j < i - start ==> is_decimal_digit(#[trigger] d[j]),
            v == decimal_value(d.take(i - start)),
            0 <= v <= limit,
        decreases n - i,
    {
        let c = s.get_char(i);
        assert(c == d[i - start]);
        if !('0' <= c && c <= '9') {
            proof {
                lemma_refused_digit(s@, i - start);
            }
            return None;
        }
        let digit: i128 = (c as u32 - '0' as u32) as i128;
        assert(0 <= digit <= 9);
        assert(v * 10 <= limit * 10) by (nonlinear_arith)
            requires
                0 <= v <= limit,
        ;
        v = v * 10 + digit;
        proof {
            assert(d.take(i - start + 1).drop_last() =~= d.take(i - start));
            assert(d.take(i - start + 1).last() == c);
        }
        i = i + 1;
        if v > limit {
            proof {
                lemma_refused_value(s@, i - start);
            }
            return None;
        }
    }
    assert(d.take(n - start) =~= d);
    if negative {
        Some((0 - v) as i64)
    } else if v == limit {
        None
    } else {
        Some(v as i64)
    }
}

} // verus!

verus! {

/// The decimal digits of `n`, without leading zeros.
pub open spec fn decimal_digits(n: nat) -> Seq<char>
    decreases n,
{
    if n < 10 {
        seq![(48 + n) as char]
    } else {
        decimal_digits(n / 10).push((48 + n % 10) as char)
    }
}

/// Reading the decimal digits of `n` back gives `n`: each number has its own digits.
pub proof fn lemma_decimal_digits_value(n: nat)
    ensures
        decimal_value(decimal_digits(n)) == n,
        decimal_digits(n).len() > 0,
    decreases n,
{
    if n >= 10 {
        lemma_decimal_digits_value(n / 10);
        let d = decimal_digits(n);
        assert(d.drop_last() =~= decimal_digits(n / 10));
        assert(d.last() as int - '0' as int == n % 10);
        assert(decimal_value(d) == decimal_value(d.drop_last()) * 10 + (d.last() as int - '0' as int));
        assert((n / 10) * 10 + n % 10 == n) by (nonlinear_arith);
    } else {
        let d = decimal_digits(n);
        assert(d.drop_last() =~= Seq::<char>::empty());
        assert(decimal_value(d) == decimal_value(d.drop_last()) * 10 + (d.last() as int - '0' as int));
        assert(d.last() as int == 48 + n);
    }
}

fn push_decimal(out: &mut String, n: u64)
    ensures
        final(out)@ == old(out)@ + decimal_digits(n as nat),
    decreases n,
{
    if n >= 10 {
        push_decimal(out, n / 10);
    }
    let d = n % 10;
    let c: char = (48 + d) as u8 as char;
    push_char(out, c);
    proof {
        assert(c == (48 + (n as nat) % 10) as char);
        assert(final(out)@ =~= old(out)@ + decimal_digits(n as nat));
    }
}

/// `n` in decimal, as `format!("{}", n)` writes it.
pub fn decimal_string(n: u64) -> (r: String)
    ensures
        r@ == decimal_digits(n as nat),
{
    let mut r = String::new();
    push_decimal(&mut r, n);
    assert(r@ =~= decimal_digits(n as nat));
    r
}

} // verus!

verus! {

/// Whether `needle` occurs in `hay`.
pub open spec fn has_substring(hay: Seq<char>, needle: Seq<char>) -> bool {
    exists|i: int| 0 <= i && i + needle.len() <= hay.len() && #[trigger] hay.subrange(i, i + needle.len()) == needle
}

/// Whether `needle` occurs in `hay`, as `str::contains` answers for a string pattern.
pub fn contains_str(hay: &str, needle: &str) -> (r: bool)
    ensures
        r == has_substring(hay@, needle@),
{
    let n = hay.unicode_len();
    let m = needle.unicode_len();
    if m > n {
        proof {
            if has_substring(hay@, needle@) {
                let i = choose|i: int| 0 <= i && i + needle@.len() <= hay@.len() && #[trigger] hay@.subrange(i, i + needle@.len()) == needle@;
            }
        }
        return false;
    }
    if m == 0 {
        assert(hay@.subrange(0int, 0int + needle@.len()) =~= needle@);
        assert(has_substring(hay@, needle@));
        return true;
    }
    let mut i: usize = 0;
    while i <= n - m
        invariant
            n == hay@.len(),
            m == needle@.len(),
            1 <= m <= n,
            i <= n - m + 1,
            forall|j: int| 0 <= j < i ==> #[trigger] hay@.subrange(j, j + m) != needle@,
        decreases n - m + 1 - i,
    {
        let piece = hay.substring_char(i, i + m);
        if str_eq(piece, needle) {
            return true;
        }
        i = i + 1;
    }
    proof {
        if has_substring(hay@, needle@) {
            let j = choose|j: int| 0 <= j && j + needle@.len() <= hay@.len() && #[trigger] hay@.subrange(j, j + needle@.len()) == needle@;
            assert(hay@.subrange(j, j + m) != needle@);
        }
    }
    false
}

} // verus!
